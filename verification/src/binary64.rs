//! IEEE 754 binary64 numbers, held as their bit patterns.
//!
//! Prices, amounts and percentages are binary64 quantities. The type here computes
//! with them in integer arithmetic, and each operation is proved to return the
//! number nearest to the exact result (ties to even), as the standard asks.
use vstd::arithmetic::div_mod::{
    lemma_fundamental_div_mod, lemma_fundamental_div_mod_converse, lemma_mod_bound,
};
use vstd::arithmetic::power2::{lemma_pow2_adds, lemma_pow2_pos, lemma_pow2_unfold, pow2};
use vstd::prelude::*;
use vstd::string::*;

use crate::decimal::{
    fixed_digits, pointed, points_stand_before_the_places, push_pointed, read_decimal, ten,
};
use crate::rounding::{
    above, bit_length, brackets, distance, half_even, lemma_half_even_is_nearest,
    lemma_nearest_exact, lemma_nearest_is_nearest, lemma_nearest_representable, lemma_pow2_127, lemma_pow2_weak,
    nearest, pow2_u128, representable, round_scaled, scaled,
};

verus! {

/// What a bit pattern stands for. A finite magnitude is counted in units of the
/// smallest positive binary64 number, two to the power -1074. The payload of a NaN
/// is not looked at.
pub enum Num {
    NaN,
    Infinite { neg: bool },
    Finite { neg: bool, mag: nat },
}

/// A binary64 number. `==` compares as the standard does: the two zeros are equal and
/// no NaN equals anything.
#[derive(Clone, Copy, Debug)]
pub struct Binary64 {
    pub bits: u64,
}

/// The sign bit, and the first pattern past the positive ones.
pub const SIGN: u64 = 0x8000_0000_0000_0000;

/// The weight of one step of the exponent field.
pub const STEP: u64 = 0x10_0000_0000_0000;

/// The pattern of positive infinity.
pub const INFINITY: u64 = 0x7ff0_0000_0000_0000;

/// The value of a bit pattern: sign, eleven exponent bits, fifty-two fraction bits.
pub open spec fn decode_bits(bits: u64) -> Num {
    let neg = bits >= SIGN;
    let exponent = (bits / STEP) % 2048;
    let fraction = (bits % STEP) as nat;
    if exponent == 2047 {
        if fraction == 0 {
            Num::Infinite { neg }
        } else {
            Num::NaN
        }
    } else if exponent == 0 {
        Num::Finite { neg, mag: fraction }
    } else {
        Num::Finite { neg, mag: (STEP + fraction) as nat * pow2((exponent - 1) as nat) }
    }
}

impl View for Binary64 {
    type V = Num;

    open spec fn view(&self) -> Num {
        decode_bits(self.bits)
    }
}

/// A finite number as an integer multiple of the unit.
pub open spec fn signed(neg: bool, mag: nat) -> int {
    if neg {
        -(mag as int)
    } else {
        mag as int
    }
}

pub open spec fn magnitude(s: int) -> nat {
    if s < 0 {
        (-s) as nat
    } else {
        s as nat
    }
}

/// The rounded value of `n / d`, infinite where it is too large.
pub open spec fn rounded(neg: bool, n: nat, d: nat) -> Num {
    if nearest(n, d) >= pow2(2098) {
        Num::Infinite { neg }
    } else {
        Num::Finite { neg, mag: nearest(n, d) }
    }
}

pub open spec fn negated(a: Num) -> Num {
    match a {
        Num::NaN => Num::NaN,
        Num::Infinite { neg } => Num::Infinite { neg: !neg },
        Num::Finite { neg, mag } => Num::Finite { neg: !neg, mag },
    }
}

/// Addition.
pub open spec fn sum(a: Num, b: Num) -> Num {
    match (a, b) {
        (Num::NaN, _) => Num::NaN,
        (_, Num::NaN) => Num::NaN,
        (Num::Infinite { neg: s }, Num::Infinite { neg: t }) => if s == t {
            a
        } else {
            Num::NaN
        },
        (Num::Infinite { .. }, Num::Finite { .. }) => a,
        (Num::Finite { .. }, Num::Infinite { .. }) => b,
        (Num::Finite { neg: s, mag: x }, Num::Finite { neg: t, mag: y }) => {
            let exact = signed(s, x) + signed(t, y);
            if exact == 0 {
                Num::Finite { neg: s && t, mag: 0 }
            } else {
                rounded(exact < 0, magnitude(exact), 1)
            }
        },
    }
}

/// Subtraction.
pub open spec fn difference(a: Num, b: Num) -> Num {
    sum(a, negated(b))
}

/// Multiplication.
pub open spec fn product(a: Num, b: Num) -> Num {
    match (a, b) {
        (Num::NaN, _) => Num::NaN,
        (_, Num::NaN) => Num::NaN,
        (Num::Infinite { neg: s }, Num::Infinite { neg: t }) => Num::Infinite { neg: s != t },
        (Num::Infinite { neg: s }, Num::Finite { neg: t, mag }) => if mag == 0 {
            Num::NaN
        } else {
            Num::Infinite { neg: s != t }
        },
        (Num::Finite { neg: s, mag }, Num::Infinite { neg: t }) => if mag == 0 {
            Num::NaN
        } else {
            Num::Infinite { neg: s != t }
        },
        (Num::Finite { neg: s, mag: x }, Num::Finite { neg: t, mag: y }) => if x == 0 || y == 0 {
            Num::Finite { neg: s != t, mag: 0 }
        } else {
            rounded(s != t, x * y, pow2(1074))
        },
    }
}

/// Division.
pub open spec fn quotient(a: Num, b: Num) -> Num {
    match (a, b) {
        (Num::NaN, _) => Num::NaN,
        (_, Num::NaN) => Num::NaN,
        (Num::Infinite { .. }, Num::Infinite { .. }) => Num::NaN,
        (Num::Infinite { neg: s }, Num::Finite { neg: t, .. }) => Num::Infinite { neg: s != t },
        (Num::Finite { neg: s, .. }, Num::Infinite { neg: t }) => Num::Finite {
            neg: s != t,
            mag: 0,
        },
        (Num::Finite { neg: s, mag: x }, Num::Finite { neg: t, mag: y }) => if y == 0 {
            if x == 0 {
                Num::NaN
            } else {
                Num::Infinite { neg: s != t }
            }
        } else if x == 0 {
            Num::Finite { neg: s != t, mag: 0 }
        } else {
            rounded(s != t, x * pow2(1074), y)
        },
    }
}

/// `a < b`; a NaN is below nothing and above nothing.
pub open spec fn below(a: Num, b: Num) -> bool {
    match (a, b) {
        (Num::NaN, _) => false,
        (_, Num::NaN) => false,
        (Num::Infinite { neg: s }, Num::Infinite { neg: t }) => s && !t,
        (Num::Infinite { neg: s }, Num::Finite { .. }) => s,
        (Num::Finite { .. }, Num::Infinite { neg: t }) => !t,
        (Num::Finite { neg: s, mag: x }, Num::Finite { neg: t, mag: y }) => signed(s, x) < signed(
            t,
            y,
        ),
    }
}

/// `a == b` as the standard compares.
pub open spec fn equal(a: Num, b: Num) -> bool {
    match (a, b) {
        (Num::Infinite { neg: s }, Num::Infinite { neg: t }) => s == t,
        (Num::Finite { neg: s, mag: x }, Num::Finite { neg: t, mag: y }) => signed(s, x) == signed(
            t,
            y,
        ),
        _ => false,
    }
}

/// `a <= b`.
pub open spec fn at_most(a: Num, b: Num) -> bool {
    below(a, b) || equal(a, b)
}

/// The larger operand; a NaN gives way to the other one.
pub open spec fn larger(a: Num, b: Num) -> Num {
    if a == Num::NaN {
        b
    } else if b == Num::NaN || !below(a, b) {
        a
    } else {
        b
    }
}

/// The smaller operand; a NaN gives way to the other one.
pub open spec fn smaller(a: Num, b: Num) -> Num {
    if a == Num::NaN {
        b
    } else if b == Num::NaN || !below(b, a) {
        a
    } else {
        b
    }
}

/// The nearest integer (halves go up), held within `u64`; zero for a NaN or a negative number.
pub open spec fn rounded_u64(a: Num) -> u64 {
    match a {
        Num::NaN => 0,
        Num::Infinite { neg } => if neg {
            0
        } else {
            u64::MAX
        },
        Num::Finite { neg, mag } => if neg {
            0
        } else {
            let whole = (mag + pow2(1073)) / pow2(1074);
            if whole > u64::MAX {
                u64::MAX
            } else {
                whole as u64
            }
        },
    }
}

/// A bit pattern taken apart. A finite number is its significand times two to the
/// power of its exponent, in units.
enum Parts {
    NaN,
    Infinite { neg: bool },
    Finite { neg: bool, sig: u64, exp: u32 },
}

/// The significand and exponent of a finite binary64 number are in range.
spec fn normal_parts(sig: u64, exp: u32) -> bool {
    &&& sig < pow2(53)
    &&& exp > 0 ==> sig >= pow2(52)
}

impl Parts {
    spec fn value(self) -> Num {
        match self {
            Parts::NaN => Num::NaN,
            Parts::Infinite { neg } => Num::Infinite { neg },
            Parts::Finite { neg, sig, exp } => Num::Finite {
                neg,
                mag: sig as nat * pow2(exp as nat),
            },
        }
    }
}

impl Binary64 {
    /// The number with the given bit pattern.
    pub fn from_bits(bits: u64) -> (r: Binary64)
        ensures
            r.bits == bits,
    {
        Binary64 { bits }
    }

    /// Positive zero.
    pub fn zero() -> (r: Binary64)
        ensures
            r.bits == 0,
            r@ == (Num::Finite { neg: false, mag: 0 }),
    {
        Binary64 { bits: 0 }
    }

    fn parts(self) -> (r: Parts)
        ensures
            r.value() == self@,
            r matches Parts::Finite { neg, sig, exp } ==> normal_parts(sig, exp) && exp <= 2045,
    {
        let neg = self.bits >= SIGN;
        let exponent = (self.bits / STEP) % 2048;
        let fraction = self.bits % STEP;
        proof {
            lemma_pow2_127();
        }
        if exponent == 2047 {
            if fraction == 0 {
                Parts::Infinite { neg }
            } else {
                Parts::NaN
            }
        } else if exponent == 0 {
            assert(fraction * pow2(0) == fraction) by (nonlinear_arith)
                requires
                    pow2(0) == 1,
            ;
            Parts::Finite { neg, sig: fraction, exp: 0 }
        } else {
            Parts::Finite { neg, sig: STEP + fraction, exp: (exponent - 1) as u32 }
        }
    }

    /// The pattern of a significand and an exponent, infinite where the exponent is too large.
    fn pack(neg: bool, sig: u64, exp: u32) -> (r: Binary64)
        requires
            normal_parts(sig, exp),
        ensures
            r@ == (if exp > 2045 {
                Num::Infinite { neg }
            } else {
                Num::Finite { neg, mag: sig as nat * pow2(exp as nat) }
            }),
    {
        let sign = if neg { SIGN } else { 0 };
        proof {
            lemma_pow2_127();
        }
        if exp > 2045 {
            Binary64 { bits: sign + INFINITY }
        } else if sig < STEP {
            assert(sig * pow2(0) == sig) by (nonlinear_arith)
                requires
                    pow2(0) == 1,
            ;
            Binary64 { bits: sign + sig }
        } else {
            let field = exp as u64 + 1;
            let bits = sign + field * STEP + (sig - STEP);
            assert((bits / STEP) % 2048 == field && bits % STEP == sig - STEP);
            Binary64 { bits }
        }
    }

    /// Packs the rounded value of `n / d`.
    fn pack_rounded(
        neg: bool,
        m: u128,
        sticky: bool,
        j: i32,
        Ghost(n): Ghost<nat>,
        Ghost(d): Ghost<nat>,
    ) -> (r: Binary64)
        requires
            0 < m < pow2(127),
            d > 0,
            -8000 <= j <= 8000,
            brackets(n, d, m as nat, sticky, j as int),
            sticky ==> m >= pow2(54),
        ensures
            r@ == rounded(neg, n, d),
    {
        let (sig, exp) = round_scaled(m, sticky, j, Ghost(n), Ghost(d));
        proof {
            let p = pow2(exp as nat);
            lemma_pow2_pos(exp as nat);
            if exp > 2045 {
                lemma_pow2_adds(52, exp as nat);
                lemma_pow2_weak(2098, (52 + exp) as nat);
                assert(pow2(52) * p <= sig * p) by (nonlinear_arith)
                    requires
                        pow2(52) <= sig,
                        p > 0,
                ;
            } else {
                lemma_pow2_adds(53, exp as nat);
                lemma_pow2_weak((53 + exp) as nat, 2098);
                assert(sig * p < pow2(53) * p) by (nonlinear_arith)
                    requires
                        sig < pow2(53),
                        p > 0,
                ;
            }
        }
        Binary64::pack(neg, sig, exp)
    }

    /// A canonical NaN.
    fn nan() -> (r: Binary64)
        ensures
            r@ == Num::NaN,
    {
        Binary64 { bits: INFINITY + 1 }
    }

    fn infinity(neg: bool) -> (r: Binary64)
        ensures
            r@ == (Num::Infinite { neg }),
    {
        Binary64 {
            bits: if neg {
                SIGN + INFINITY
            } else {
                INFINITY
            },
        }
    }

    fn signed_zero(neg: bool) -> (r: Binary64)
        ensures
            r@ == (Num::Finite { neg, mag: 0 }),
    {
        Binary64 {
            bits: if neg {
                SIGN
            } else {
                0
            },
        }
    }

    /// `self * other`.
    pub fn times(self, other: Binary64) -> (r: Binary64)
        ensures
            r@ == product(self@, other@),
    {
        match (self.parts(), other.parts()) {
            (Parts::NaN, _) => Binary64::nan(),
            (_, Parts::NaN) => Binary64::nan(),
            (Parts::Infinite { neg: s }, Parts::Infinite { neg: t }) => Binary64::infinity(s != t),
            (Parts::Infinite { neg: s }, Parts::Finite { neg: t, sig, exp }) => {
                proof {
                    lemma_zero_sig(sig, exp);
                }
                if sig == 0 {
                    Binary64::nan()
                } else {
                    Binary64::infinity(s != t)
                }
            },
            (Parts::Finite { neg: s, sig, exp }, Parts::Infinite { neg: t }) => {
                proof {
                    lemma_zero_sig(sig, exp);
                }
                if sig == 0 {
                    Binary64::nan()
                } else {
                    Binary64::infinity(s != t)
                }
            },
            (
                Parts::Finite { neg: s, sig: a, exp: e },
                Parts::Finite { neg: t, sig: b, exp: f },
            ) => {
                proof {
                    lemma_zero_sig(a, e);
                    lemma_zero_sig(b, f);
                }
                if a == 0 || b == 0 {
                    return Binary64::signed_zero(s != t);
                }
                proof {
                    lemma_pow2_127();
                    assert(0 < a * b < pow2(53) * pow2(53)) by (nonlinear_arith)
                        requires
                            0 < a < pow2(53),
                            0 < b < pow2(53),
                    ;
                    lemma_pow2_adds(53, 53);
                    lemma_pow2_weak(106, 127);
                    lemma_product_brackets(a as nat, b as nat, e as nat, f as nat);
                    lemma_pow2_pos(1074);
                }
                let m = a as u128 * b as u128;
                let j = e as i32 + f as i32 - 1074;
                Binary64::pack_rounded(
                    s != t,
                    m,
                    false,
                    j,
                    Ghost(a as nat * pow2(e as nat) * (b as nat * pow2(f as nat))),
                    Ghost(pow2(1074)),
                )
            },
        }
    }
}

/// A product of finite magnitudes is zero only if its significand is.
proof fn lemma_zero_sig(sig: u64, exp: u32)
    ensures
        sig as nat * pow2(exp as nat) == 0 <==> sig == 0,
{
    lemma_pow2_pos(exp as nat);
    if sig > 0 {
        assert(sig * pow2(exp as nat) > 0) by (nonlinear_arith)
            requires
                sig > 0,
                pow2(exp as nat) > 0,
        ;
    }
}

proof fn lemma_product_brackets(a: nat, b: nat, e: nat, f: nat)
    ensures
        brackets(a * pow2(e) * (b * pow2(f)), pow2(1074), a * b, false, e + f - 1074),
{
    let j = e + f - 1074;
    let n = a * pow2(e) * (b * pow2(f));
    let hi = pow2(above(j));
    let lo = pow2(above(-j));
    lemma_pow2_adds(e, f);
    lemma_pow2_adds(e + f, above(-j));
    lemma_pow2_adds(above(j), 1074);
    lemma_pow2_pos(above(j));
    lemma_pow2_pos(1074);
    assert(n * lo == (a * b) * (hi * pow2(1074))) by (nonlinear_arith)
        requires
            n == a * pow2(e) * (b * pow2(f)),
            pow2(e) * pow2(f) * lo == hi * pow2(1074),
    ;
    assert((a * b + 1) * (hi * pow2(1074)) > (a * b) * (hi * pow2(1074))) by (nonlinear_arith)
        requires
            hi > 0,
            pow2(1074) > 0,
    ;
}

impl Binary64 {
    /// `self / other`.
    pub fn over(self, other: Binary64) -> (r: Binary64)
        ensures
            r@ == quotient(self@, other@),
    {
        match (self.parts(), other.parts()) {
            (Parts::NaN, _) => Binary64::nan(),
            (_, Parts::NaN) => Binary64::nan(),
            (Parts::Infinite { .. }, Parts::Infinite { .. }) => Binary64::nan(),
            (Parts::Infinite { neg: s }, Parts::Finite { neg: t, .. }) => Binary64::infinity(
                s != t,
            ),
            (Parts::Finite { neg: s, .. }, Parts::Infinite { neg: t }) => Binary64::signed_zero(
                s != t,
            ),
            (
                Parts::Finite { neg: s, sig: a, exp: e },
                Parts::Finite { neg: t, sig: b, exp: f },
            ) => {
                proof {
                    lemma_zero_sig(a, e);
                    lemma_zero_sig(b, f);
                }
                if b == 0 {
                    if a == 0 {
                        return Binary64::nan();
                    }
                    return Binary64::infinity(s != t);
                }
                if a == 0 {
                    return Binary64::signed_zero(s != t);
                }
                Binary64::over_positive(s != t, a, e, b, f)
            },
        }
    }

    /// Divides two positive finite magnitudes.
    fn over_positive(neg: bool, a: u64, e: u32, b: u64, f: u32) -> (r: Binary64)
        requires
            0 < a < pow2(53),
            0 < b < pow2(53),
            e <= 2045,
            f <= 2045,
        ensures
            r@ == rounded(
                neg,
                a as nat * pow2(e as nat) * pow2(1074),
                b as nat * pow2(f as nat),
            ),
    {
        let len = bit_length(a as u128);
        proof {
            lemma_pow2_127();
            if len > 53 {
                lemma_pow2_weak(53, (len - 1) as nat);
            }
        }
        // The dividend is shifted up to 127 bits, so that the quotient has bits to spare.
        let lift: u32 = 127 - len;
        let scale: u128 = pow2_u128(lift);
        proof {
            lemma_pow2_adds(len as nat, lift as nat);
            lemma_pow2_adds((len - 1) as nat, lift as nat);
            lemma_pow2_pos(lift as nat);
            assert(pow2(126) <= a * scale < pow2(127)) by (nonlinear_arith)
                requires
                    pow2((len - 1) as nat) <= a < pow2(len as nat),
                    pow2((len - 1) as nat) * scale == pow2(126),
                    pow2(len as nat) * scale == pow2(127),
                    scale > 0,
            ;
        }
        let dividend: u128 = a as u128 * scale;
        let m: u128 = dividend / (b as u128);
        let rest: u128 = dividend % (b as u128);
        let sticky = rest != 0;
        let j: i32 = e as i32 + 1074 - f as i32 - lift as i32;
        proof {
            lemma_fundamental_div_mod(dividend as int, b as int);
            lemma_pow2_adds(73, 53);
            lemma_pow2_weak(54, 73);
            assert(pow2(73) <= m <= dividend) by (nonlinear_arith)
                requires
                    dividend == b * m + rest,
                    0 <= rest < b,
                    0 < b < pow2(53),
                    pow2(73) * pow2(53) <= dividend,
                    m >= 0,
            ;
            lemma_quotient_brackets(
                a as nat,
                e as nat,
                b as nat,
                f as nat,
                lift as nat,
                m as nat,
                rest as nat,
            );
            lemma_zero_sig(b, f);
        }
        Binary64::pack_rounded(
            neg,
            m,
            sticky,
            j,
            Ghost(a as nat * pow2(e as nat) * pow2(1074)),
            Ghost(b as nat * pow2(f as nat)),
        )
    }

    /// `self + other`.
    pub fn plus(self, other: Binary64) -> (r: Binary64)
        ensures
            r@ == sum(self@, other@),
    {
        match (self.parts(), other.parts()) {
            (Parts::NaN, _) => Binary64::nan(),
            (_, Parts::NaN) => Binary64::nan(),
            (Parts::Infinite { neg: s }, Parts::Infinite { neg: t }) => if s == t {
                self
            } else {
                Binary64::nan()
            },
            (Parts::Infinite { .. }, Parts::Finite { .. }) => self,
            (Parts::Finite { .. }, Parts::Infinite { .. }) => other,
            (
                Parts::Finite { neg: s, sig: a, exp: e },
                Parts::Finite { neg: t, sig: b, exp: f },
            ) => {
                if e >= f {
                    Binary64::plus_aligned(s, a, e, t, b, f)
                } else {
                    Binary64::plus_aligned(t, b, f, s, a, e)
                }
            },
        }
    }

    /// Adds two finite numbers, of which the first has the larger exponent.
    fn plus_aligned(s: bool, a: u64, e: u32, t: bool, b: u64, f: u32) -> (r: Binary64)
        requires
            normal_parts(a, e),
            normal_parts(b, f),
            f <= e <= 2045,
        ensures
            r@ == sum(
                Num::Finite { neg: s, mag: a as nat * pow2(e as nat) },
                Num::Finite { neg: t, mag: b as nat * pow2(f as nat) },
            ),
    {
        let gap: u32 = e - f;
        let ghost x = a as nat * pow2(e as nat);
        let ghost y = b as nat * pow2(f as nat);
        let ghost unit = pow2(f as nat);
        proof {
            lemma_pow2_127();
            lemma_pow2_pos(f as nat);
        }
        if gap <= 72 {
            // Both magnitudes are integers on the smaller exponent.
            let scale: u128 = pow2_u128(gap);
            proof {
                lemma_pow2_adds(53, gap as nat);
                lemma_pow2_weak((53 + gap) as nat, 125);
                lemma_pow2_weak(53, 125);
                lemma_pow2_unfold(126);
                lemma_pow2_unfold(127);
                lemma_pow2_pos(gap as nat);
                assert(a * scale < pow2(53) * pow2(gap as nat)) by (nonlinear_arith)
                    requires
                        a < pow2(53),
                        scale == pow2(gap as nat),
                        scale > 0,
                ;
                lemma_pow2_adds(gap as nat, f as nat);
                assert(x == (a * scale) * unit) by (nonlinear_arith)
                    requires
                        x == a * pow2(e as nat),
                        pow2(e as nat) == scale * unit,
                ;
            }
            let wide: u128 = a as u128 * scale;
            let narrow: u128 = b as u128;
            if s == t {
                let m: u128 = wide + narrow;
                proof {
                    assert(x + y == m * unit) by (nonlinear_arith)
                        requires
                            x == wide * unit,
                            y == narrow * unit,
                            m == wide + narrow,
                    ;
                    lemma_exact_brackets(m as nat, f as nat);
                }
                if m == 0 {
                    return Binary64::signed_zero(s);
                }
                assert(m * unit > 0) by (nonlinear_arith)
                    requires
                        m > 0,
                        unit > 0,
                ;
                Binary64::pack_rounded(s, m, false, f as i32, Ghost(m as nat * unit), Ghost(1))
            } else if wide == narrow {
                Binary64::signed_zero(false)
            } else if wide > narrow {
                let m: u128 = wide - narrow;
                proof {
                    assert(x - y == m * unit && m * unit > 0) by (nonlinear_arith)
                        requires
                            x == wide * unit,
                            y == narrow * unit,
                            m == wide - narrow,
                            m > 0,
                            unit > 0,
                    ;
                    lemma_exact_brackets(m as nat, f as nat);
                }
                Binary64::pack_rounded(s, m, false, f as i32, Ghost(m as nat * unit), Ghost(1))
            } else {
                let m: u128 = narrow - wide;
                proof {
                    assert(y - x == m * unit && m * unit > 0) by (nonlinear_arith)
                        requires
                            x == wide * unit,
                            y == narrow * unit,
                            m == narrow - wide,
                            m > 0,
                            unit > 0,
                    ;
                    lemma_exact_brackets(m as nat, f as nat);
                }
                Binary64::pack_rounded(t, m, false, f as i32, Ghost(m as nat * unit), Ghost(1))
            }
        } else {
            // The second magnitude lies far below the first: only its leading bits, and
            // whether anything follows them, matter.
            let scale: u128 = pow2_u128(72);
            let shift: u32 = gap - 72;
            let (kept, cut): (u128, bool) = if shift < 64 {
                let p: u128 = pow2_u128(shift);
                proof {
                    lemma_pow2_pos(shift as nat);
                    lemma_fundamental_div_mod(b as int, p as int);
                    assert(p * (b as u128 / p) == (b as u128 / p) * p) by (nonlinear_arith);
                    assert(b as u128 / p <= b) by (nonlinear_arith)
                        requires
                            p > 0,
                            p * (b as u128 / p) <= b,
                            b as u128 / p >= 0,
                    ;
                }
                (b as u128 / p, b as u128 % p != 0)
            } else {
                proof {
                    lemma_pow2_weak(53, shift as nat);
                }
                (0, b != 0)
            };
            let ghost p = pow2(shift as nat);
            let ghost coarse = pow2((f + shift) as nat);
            proof {
                lemma_pow2_pos(shift as nat);
                assert(kept <= b);
                assert(kept * p <= b < (kept + 1) * p && (cut <==> b != kept * p)) by {
                    assert((kept + 1) * p == kept * p + p) by (nonlinear_arith);
                }
                lemma_pow2_adds(f as nat, shift as nat);
                assert(kept * coarse <= y < (kept + 1) * coarse && (cut <==> y != kept * coarse))
                    by (nonlinear_arith)
                    requires
                        kept * p <= b < (kept + 1) * p,
                        cut <==> b != kept * p,
                        coarse == unit * p,
                        y == b * unit,
                        unit > 0,
                ;
                lemma_pow2_adds(72, (f + shift) as nat);
                assert(x == (a * scale) * coarse) by (nonlinear_arith)
                    requires
                        x == a * pow2(e as nat),
                        pow2(e as nat) == scale * coarse,
                ;
                lemma_pow2_adds(53, 72);
                lemma_pow2_adds(52, 72);
                lemma_pow2_unfold(126);
                lemma_pow2_unfold(127);
                lemma_pow2_weak(53, 122);
                lemma_pow2_unfold(123);
                lemma_pow2_unfold(124);
                lemma_pow2_weak(54, 122);
                assert(pow2(124) <= a * scale < pow2(125)) by (nonlinear_arith)
                    requires
                        pow2(52) <= a < pow2(53),
                        pow2(52) * scale == pow2(124),
                        pow2(53) * scale == pow2(125),
                        scale > 0,
                ;
            }
            let wide: u128 = a as u128 * scale;
            let j: i32 = (f + shift) as i32;
            if s == t {
                let m: u128 = wide + kept;
                proof {
                    assert(m * coarse <= x + y < (m + 1) * coarse && (cut <==> x + y != m * coarse))
                        by (nonlinear_arith)
                        requires
                            x == wide * coarse,
                            m == wide + kept,
                            kept * coarse <= y < (kept + 1) * coarse,
                            cut <==> y != kept * coarse,
                    ;
                    lemma_integer_brackets(x + y, m as nat, cut, (f + shift) as nat);
                    lemma_pow2_pos((f + shift) as nat);
                    assert(m * coarse > 0) by (nonlinear_arith)
                        requires
                            m > 0,
                            coarse > 0,
                    ;
                }
                Binary64::pack_rounded(s, m, cut, j, Ghost(x + y), Ghost(1))
            } else {
                let m: u128 = if cut { wide - kept - 1 } else { wide - kept };
                proof {
                    lemma_pow2_pos((f + shift) as nat);
                    let rest = x - y;
                    if cut {
                        assert(m * coarse <= rest < (m + 1) * coarse && rest != m * coarse)
                            by (nonlinear_arith)
                            requires
                                x == wide * coarse,
                                m == wide - kept - 1,
                                rest == x - y,
                                kept * coarse < y < (kept + 1) * coarse,
                        ;
                    } else {
                        assert(m * coarse == rest && rest < (m + 1) * coarse) by (nonlinear_arith)
                            requires
                                x == wide * coarse,
                                m == wide - kept,
                                rest == x - y,
                                y == kept * coarse,
                                coarse > 0,
                        ;
                    }
                    assert(m * coarse > 0) by (nonlinear_arith)
                        requires
                            m > 0,
                            coarse > 0,
                    ;
                    lemma_integer_brackets(rest as nat, m as nat, cut, (f + shift) as nat);
                }
                Binary64::pack_rounded(s, m, cut, j, Ghost((x - y) as nat), Ghost(1))
            }
        }
    }

    /// `-self`.
    fn opposite(self) -> (r: Binary64)
        ensures
            r@ == negated(self@),
    {
        if self.bits >= SIGN {
            Binary64 { bits: self.bits - SIGN }
        } else {
            Binary64 { bits: self.bits + SIGN }
        }
    }

    /// `self - other`.
    pub fn minus(self, other: Binary64) -> (r: Binary64)
        ensures
            r@ == difference(self@, other@),
    {
        self.plus(other.opposite())
    }
}

proof fn lemma_quotient_brackets(
    a: nat,
    e: nat,
    b: nat,
    f: nat,
    lift: nat,
    m: nat,
    rest: nat,
)
    requires
        0 < b,
        rest < b,
        a * pow2(lift) == b * m + rest,
    ensures
        brackets(
            a * pow2(e) * pow2(1074),
            b * pow2(f),
            m,
            rest != 0,
            e + 1074 - f - lift,
        ),
{
    let j = e + 1074 - f - lift;
    let hi = pow2(above(j));
    let lo = pow2(above(-j));
    let n = a * pow2(e) * pow2(1074);
    let x = pow2(above(j) + f);
    lemma_pow2_adds(above(j), f);
    lemma_pow2_adds(e, 1074);
    lemma_pow2_adds(e + 1074, above(-j));
    lemma_pow2_adds(lift, above(j) + f);
    lemma_pow2_pos(above(j) + f);
    assert(e + 1074 + above(-j) == lift + (above(j) + f));
    assert(n * lo == (a * pow2(lift)) * x) by (nonlinear_arith)
        requires
            n == a * pow2(e) * pow2(1074),
            pow2(e) * pow2(1074) * lo == pow2(lift) * x,
    ;
    let unit = hi * (b * pow2(f));
    assert(unit == b * x) by (nonlinear_arith)
        requires
            unit == hi * (b * pow2(f)),
            x == hi * pow2(f),
    ;
    assert(n * lo == m * unit + rest * x) by (nonlinear_arith)
        requires
            n * lo == (a * pow2(lift)) * x,
            a * pow2(lift) == b * m + rest,
            unit == b * x,
    ;
    assert(0 <= rest * x < unit && (rest != 0 ==> rest * x > 0)) by (nonlinear_arith)
        requires
            0 <= rest < b,
            x > 0,
            unit == b * x,
    ;
    assert((m + 1) * unit == m * unit + unit) by (nonlinear_arith);
}

/// An integer that lies in a bracket of width two to the power `j`.
proof fn lemma_integer_brackets(n: nat, m: nat, sticky: bool, j: nat)
    requires
        m * pow2(j) <= n < (m + 1) * pow2(j),
        sticky <==> n != m * pow2(j),
    ensures
        brackets(n, 1, m, sticky, j as int),
{
    lemma_pow2_127();
    assert(pow2(j) * 1 == pow2(j) && n * pow2(0) == n) by (nonlinear_arith)
        requires
            pow2(0) == 1,
    ;
}

proof fn lemma_exact_brackets(m: nat, j: nat)
    ensures
        brackets(m * pow2(j), 1, m, false, j as int),
{
    lemma_pow2_pos(j);
    assert((m + 1) * pow2(j) == m * pow2(j) + pow2(j)) by (nonlinear_arith);
    lemma_integer_brackets(m * pow2(j), m, false, j);
}

/// The position of a pattern in the order of the numbers; the two zeros share one.
spec fn rank(bits: u64) -> int {
    if bits >= SIGN {
        -(bits - SIGN)
    } else {
        bits as int
    }
}

/// The magnitude of a positive finite pattern.
spec fn pattern_mag(bits: u64) -> nat {
    if bits < STEP {
        bits as nat
    } else {
        (STEP + bits % STEP) as nat * pow2((bits / STEP - 1) as nat)
    }
}

proof fn lemma_pattern_mag(x: u64)
    requires
        x < INFINITY,
    ensures
        decode_bits(x) == (Num::Finite { neg: false, mag: pattern_mag(x) }),
{
    assert(x / STEP < 2047 && (x / STEP) % 2048 == x / STEP);
    assert(x < STEP <==> x / STEP == 0);
    assert(x < STEP ==> x % STEP == x);
}

/// Within one exponent the magnitude grows with the fraction, and each exponent starts above
/// the one before.
proof fn lemma_mags_increase(x: u64, y: u64)
    requires
        x < y < INFINITY,
    ensures
        pattern_mag(x) < pattern_mag(y),
{
    let e = x / STEP;
    let f = y / STEP;
    let a = STEP + x % STEP;
    let b = STEP + y % STEP;
    if y >= STEP {
        let q = pow2((f - 1) as nat);
        lemma_pow2_pos((f - 1) as nat);
        assert(b * q >= STEP * q && STEP * q >= STEP) by (nonlinear_arith)
            requires
                b >= STEP,
                STEP > 0,
                q > 0,
        ;
        if x >= STEP {
            let p = pow2((e - 1) as nat);
            lemma_pow2_pos((e - 1) as nat);
            if e == f {
                assert(a < b);
                assert(a * p < b * p) by (nonlinear_arith)
                    requires
                        a < b,
                        p > 0,
                ;
            } else {
                assert(e < f);
                lemma_pow2_unfold(e as nat);
                lemma_pow2_weak(e as nat, (f - 1) as nat);
                assert(a * p < STEP * q) by (nonlinear_arith)
                    requires
                        a < 2 * STEP,
                        2 * p <= q,
                        p > 0,
                ;
            }
        }
    }
}

/// Larger positive patterns stand for larger numbers.
proof fn lemma_patterns_increase(x: u64, y: u64)
    requires
        x < y <= INFINITY,
    ensures
        below(decode_bits(x), decode_bits(y)),
        decode_bits(x) matches Num::Finite { neg, .. } && !neg,
        decode_bits(y) matches Num::Finite { mag, .. } ==> mag > 0,
{
    lemma_pattern_mag(x);
    if y < INFINITY {
        lemma_pattern_mag(y);
        lemma_mags_increase(x, y);
    } else {
        assert(decode_bits(INFINITY) == (Num::Infinite { neg: false }));
    }
}

/// The order of the ranks is the order of the numbers.
proof fn lemma_rank_order(a: u64, b: u64)
    requires
        decode_bits(a) != Num::NaN,
        decode_bits(b) != Num::NaN,
    ensures
        below(decode_bits(a), decode_bits(b)) <==> rank(a) < rank(b),
        equal(decode_bits(a), decode_bits(b)) <==> rank(a) == rank(b),
{
    let x = if a >= SIGN { (a - SIGN) as u64 } else { a };
    let y = if b >= SIGN { (b - SIGN) as u64 } else { b };
    assert(a >= SIGN ==> decode_bits(a) == negated(decode_bits(x)));
    assert(b >= SIGN ==> decode_bits(b) == negated(decode_bits(y)));
    assert(x <= INFINITY && y <= INFINITY);
    if x < y {
        lemma_patterns_increase(x, y);
    } else if y < x {
        lemma_patterns_increase(y, x);
    }
    if 0 < x {
        lemma_patterns_increase(0, x);
    }
    if 0 < y {
        lemma_patterns_increase(0, y);
    }
}

impl Binary64 {
    /// Whether the pattern is that of a NaN.
    pub fn is_nan(self) -> (r: bool)
        ensures
            r == (self@ == Num::NaN),
    {
        self.bits % SIGN > INFINITY
    }

    fn place(self) -> (r: i64)
        requires
            self@ != Num::NaN,
        ensures
            r == rank(self.bits),
    {
        if self.bits >= SIGN {
            -((self.bits - SIGN) as i64)
        } else {
            self.bits as i64
        }
    }

    /// `self < other`.
    pub fn lt(self, other: Binary64) -> (r: bool)
        ensures
            r == below(self@, other@),
    {
        if self.is_nan() || other.is_nan() {
            return false;
        }
        proof {
            lemma_rank_order(self.bits, other.bits);
        }
        self.place() < other.place()
    }

    /// `self <= other`.
    pub fn le(self, other: Binary64) -> (r: bool)
        ensures
            r == at_most(self@, other@),
    {
        if self.is_nan() || other.is_nan() {
            return false;
        }
        proof {
            lemma_rank_order(self.bits, other.bits);
        }
        self.place() <= other.place()
    }

    /// `self == other`.
    pub fn same(self, other: Binary64) -> (r: bool)
        ensures
            r == equal(self@, other@),
    {
        if self.is_nan() || other.is_nan() {
            return false;
        }
        proof {
            lemma_rank_order(self.bits, other.bits);
        }
        self.place() == other.place()
    }

    /// The larger of the two.
    pub fn max_of(self, other: Binary64) -> (r: Binary64)
        ensures
            r@ == larger(self@, other@),
    {
        if self.is_nan() {
            other
        } else if other.is_nan() || !self.lt(other) {
            self
        } else {
            other
        }
    }

    /// The smaller of the two.
    pub fn min_of(self, other: Binary64) -> (r: Binary64)
        ensures
            r@ == smaller(self@, other@),
    {
        if self.is_nan() {
            other
        } else if other.is_nan() || !other.lt(self) {
            self
        } else {
            other
        }
    }

    /// The nearest integer, held within `u64`.
    pub fn round_to_u64(self) -> (r: u64)
        ensures
            r == rounded_u64(self@),
    {
        match self.parts() {
            Parts::NaN => 0,
            Parts::Infinite { neg } => if neg {
                0
            } else {
                u64::MAX
            },
            Parts::Finite { neg, sig, exp } => {
                if neg {
                    return 0;
                }
                let ghost mag = sig as nat * pow2(exp as nat);
                let ghost unit = pow2(1074);
                let ghost half = pow2(1073);
                proof {
                    lemma_pow2_127();
                    lemma_pow2_unfold(1074);
                    lemma_pow2_pos(1073);
                    lemma_pow2_pos(exp as nat);
                }
                if exp >= 1086 {
                    // At least two to the power 64.
                    proof {
                        lemma_pow2_adds(64, 1074);
                        lemma_pow2_adds(52, exp as nat);
                        lemma_pow2_weak(1138, (52 + exp) as nat);
                        vstd::arithmetic::power2::lemma2_to64();
                        assert(mag >= pow2(52) * pow2(exp as nat)) by (nonlinear_arith)
                            requires
                                mag == sig * pow2(exp as nat),
                                sig >= pow2(52),
                        ;
                        let whole = (mag + half) / unit;
                        lemma_fundamental_div_mod((mag + half) as int, unit as int);
                        let rest = (mag + half) % unit;
                        assert(whole >= pow2(64)) by (nonlinear_arith)
                            requires
                                mag + half == unit * whole + rest,
                                rest < unit,
                                pow2(64) * unit <= mag,
                                half >= 0,
                                unit > 0,
                        ;
                    }
                    u64::MAX
                } else if exp >= 1074 {
                    // An integer.
                    let p: u128 = pow2_u128(exp - 1074);
                    proof {
                        lemma_pow2_adds((exp - 1074) as nat, 1074);
                        lemma_pow2_weak((exp - 1074) as nat, 11);
                        lemma_pow2_adds(53, 11);
                        vstd::arithmetic::power2::lemma2_to64();
                        lemma_pow2_pos((exp - 1074) as nat);
                        assert(sig * p < pow2(53) * pow2(11)) by (nonlinear_arith)
                            requires
                                sig < pow2(53),
                                0 < p <= pow2(11),
                        ;
                        let whole = (sig * p) as nat;
                        assert(mag == whole * unit) by (nonlinear_arith)
                            requires
                                mag == sig * pow2(exp as nat),
                                pow2(exp as nat) == p * unit,
                                whole == sig * p,
                        ;
                        assert(whole * unit == unit * whole) by (nonlinear_arith);
                        vstd::arithmetic::div_mod::lemma_fundamental_div_mod_converse(
                            (mag + half) as int,
                            unit as int,
                            whole as int,
                            half as int,
                        );
                    }
                    (sig as u128 * p) as u64
                } else {
                    // Whole units and a fraction.
                    let drop: u32 = 1074 - exp;
                    if drop >= 64 {
                        proof {
                            lemma_pow2_adds(53, exp as nat);
                            lemma_pow2_weak((53 + exp) as nat, 1073);
                            assert(mag < pow2(53) * pow2(exp as nat)) by (nonlinear_arith)
                                requires
                                    mag == sig * pow2(exp as nat),
                                    sig < pow2(53),
                                    pow2(exp as nat) > 0,
                            ;
                            vstd::arithmetic::div_mod::lemma_basic_div(
                                (mag + half) as int,
                                unit as int,
                            );
                        }
                        return 0;
                    }
                    let p: u128 = pow2_u128(drop);
                    let h: u128 = pow2_u128(drop - 1);
                    proof {
                        lemma_pow2_weak(drop as nat, 63);
                        lemma_pow2_unfold(drop as nat);
                        vstd::arithmetic::power2::lemma2_to64();
                        lemma_pow2_weak(63, 64);
                        lemma_pow2_pos((drop - 1) as nat);
                    }
                    let raised: u128 = sig as u128 + h;
                    let whole: u128 = raised / p;
                    proof {
                        let low = pow2(exp as nat);
                        lemma_pow2_adds(drop as nat, exp as nat);
                        lemma_pow2_adds((drop - 1) as nat, exp as nat);
                        lemma_fundamental_div_mod(raised as int, p as int);
                        let rest = raised % p;
                        assert(mag + half == whole * unit + rest * low && 0 <= rest * low < unit)
                            by (nonlinear_arith)
                            requires
                                mag == sig * low,
                                half == h * low,
                                unit == p * low,
                                raised == sig + h,
                                raised == p * whole + rest,
                                0 <= rest < p,
                                low > 0,
                        ;
                        vstd::arithmetic::div_mod::lemma_fundamental_div_mod_converse(
                            (mag + half) as int,
                            unit as int,
                            whole as int,
                            (rest * low) as int,
                        );
                        assert(whole <= raised) by (nonlinear_arith)
                            requires
                                raised >= p * whole,
                                p >= 1,
                                whole >= 0,
                        ;
                    }
                    whole as u64
                }
            },
        }
    }
}

impl PartialEq for Binary64 {
    fn eq(&self, other: &Binary64) -> (r: bool) {
        self.same(*other)
    }
}

impl vstd::std_specs::cmp::PartialEqSpecImpl for Binary64 {
    open spec fn obeys_eq_spec() -> bool {
        true
    }

    open spec fn eq_spec(&self, other: &Binary64) -> bool {
        equal(self@, other@)
    }
}

/// The number one.
pub open spec fn one() -> Num {
    Num::Finite { neg: false, mag: pow2(1074) }
}

/// Positive zero.
pub open spec fn nought() -> Num {
    Num::Finite { neg: false, mag: 0 }
}

/// The number one hundred.
pub open spec fn hundred() -> Num {
    Num::Finite { neg: false, mag: 100 * pow2(1074) }
}

/// The number one billion.
pub open spec fn billion() -> Num {
    Num::Finite { neg: false, mag: 1_000_000_000 * pow2(1074) }
}

/// The gap between one and the next number above it, two to the power -52.
pub open spec fn epsilon() -> Num {
    Num::Finite { neg: false, mag: pow2(1022) }
}

/// A number with a fixed count of decimals, rounded half to even.
pub open spec fn fixed(a: Num, places: nat) -> Seq<char> {
    match a {
        Num::NaN => "NaN"@,
        Num::Infinite { neg } => if neg {
            "-inf"@
        } else {
            "inf"@
        },
        Num::Finite { neg, mag } => (if neg {
            "-"@
        } else {
            Seq::empty()
        }) + pointed(half_even(mag * ten(places), pow2(1074)), places),
    }
}

impl Binary64 {
    /// `1.0`
    pub fn one() -> (r: Binary64)
        ensures
            r@ == one(),
    {
        proof {
            lemma_pow2_127();
            lemma_pow2_adds(52, 1022);
        }
        Binary64 { bits: 0x3ff0_0000_0000_0000 }
    }

    /// `100.0`
    pub fn hundred() -> (r: Binary64)
        ensures
            r@ == hundred(),
    {
        proof {
            vstd::arithmetic::power2::lemma2_to64();
            vstd::arithmetic::power2::lemma2_to64_rest();
            lemma_pow2_adds(46, 1028);
            assert(0x19_0000_0000_0000 * pow2(1028) == 100 * (pow2(46) * pow2(1028)))
                by (nonlinear_arith)
                requires
                    pow2(46) == 0x4000_0000_0000,
            ;
        }
        Binary64 { bits: 0x4059_0000_0000_0000 }
    }

    /// `1e9`
    pub fn billion() -> (r: Binary64)
        ensures
            r@ == billion(),
    {
        proof {
            vstd::arithmetic::power2::lemma2_to64();
            lemma_pow2_adds(23, 1051);
            assert(0x1d_cd65_0000_0000 * pow2(1051) == 1_000_000_000 * (pow2(23) * pow2(1051)))
                by (nonlinear_arith)
                requires
                    pow2(23) == 0x80_0000,
            ;
        }
        Binary64 { bits: 0x41cd_cd65_0000_0000 }
    }

    /// Two to the power -52.
    pub fn epsilon() -> (r: Binary64)
        ensures
            r@ == epsilon(),
    {
        proof {
            lemma_pow2_127();
            lemma_pow2_adds(52, 970);
        }
        Binary64 { bits: 0x3cb0_0000_0000_0000 }
    }

    /// Appends the number with a fixed count of decimals.
    pub fn push_fixed(self, out: &mut String, places: u32)
        requires
            0 < places <= 100,
        ensures
            final(out)@ == old(out)@ + fixed(self@, places as nat),
    {
        let ghost start = out@;
        match self.parts() {
            Parts::NaN => out.append("NaN"),
            Parts::Infinite { neg } => if neg {
                out.append("-inf");
            } else {
                out.append("inf");
            },
            Parts::Finite { neg, sig, exp } => {
                if neg {
                    out.append("-");
                }
                let digits = fixed_digits(sig, exp, places);
                push_pointed(out, digits, places);
                assert(out@ =~= start + fixed(self@, places as nat));
            },
        }
    }
}

// ---- laws ----------------------------------------------------------------

/// A finite number has at most 53 significant bits and stays below the overflow bound.
pub proof fn numbers_are_representable(a: Binary64)
    ensures
        a@ matches Num::Finite { mag, .. } ==> representable(mag) && mag < pow2(2098),
{
    let exponent = (a.bits / STEP) % 2048;
    let fraction = (a.bits % STEP) as nat;
    lemma_pow2_127();
    if exponent == 0 {
        assert(scaled(fraction, 0) == fraction) by (nonlinear_arith)
            requires
                pow2(0) == 1,
        ;
        lemma_pow2_weak(52, 2098);
    } else if exponent < 2047 {
        let e = (exponent - 1) as nat;
        let sig = (STEP + fraction) as nat;
        assert(scaled(sig, e) == sig * pow2(e));
        lemma_pow2_adds(53, e);
        lemma_pow2_weak(53 + e, 2098);
        lemma_pow2_pos(e);
        assert(sig * pow2(e) < pow2(53) * pow2(e)) by (nonlinear_arith)
            requires
                sig < pow2(53),
                pow2(e) > 0,
        ;
    }
}

/// No finite number is closer to the exact product of two positive numbers than their product.
pub proof fn products_are_nearest(x: nat, y: nat, v: nat)
    requires
        x > 0,
        y > 0,
        representable(v),
        nearest(x * y, pow2(1074)) < pow2(2098),
    ensures
        product(
            Num::Finite { neg: false, mag: x },
            Num::Finite { neg: false, mag: y },
        ) matches Num::Finite { neg, mag } && !neg && representable(mag) && distance(
            mag * pow2(1074),
            x * y,
        ) <= distance(v * pow2(1074), x * y),
{
    lemma_pow2_pos(1074);
    lemma_nearest_is_nearest(x * y, pow2(1074), v);
    lemma_nearest_representable(x * y, pow2(1074));
}

/// No finite number is closer to the exact quotient of two positive numbers than their quotient.
pub proof fn quotients_are_nearest(x: nat, y: nat, v: nat)
    requires
        x > 0,
        y > 0,
        representable(v),
        nearest(x * pow2(1074), y) < pow2(2098),
    ensures
        quotient(
            Num::Finite { neg: false, mag: x },
            Num::Finite { neg: false, mag: y },
        ) matches Num::Finite { neg, mag } && !neg && representable(mag) && distance(
            mag * y,
            x * pow2(1074),
        ) <= distance(v * y, x * pow2(1074)),
{
    lemma_nearest_is_nearest(x * pow2(1074), y, v);
    lemma_nearest_representable(x * pow2(1074), y);
}

/// No finite number is closer to the exact sum of two positive numbers than their sum.
pub proof fn sums_are_nearest(x: nat, y: nat, v: nat)
    requires
        x + y > 0,
        representable(v),
        nearest(x + y, 1) < pow2(2098),
    ensures
        sum(
            Num::Finite { neg: false, mag: x },
            Num::Finite { neg: false, mag: y },
        ) matches Num::Finite { neg, mag } && !neg && representable(mag) && distance(mag, x + y)
            <= distance(v, x + y),
{
    lemma_nearest_is_nearest(x + y, 1, v);
    lemma_nearest_representable(x + y, 1);
    assert(nearest(x + y, 1) * 1 == nearest(x + y, 1) && v * 1 == v);
}

/// No finite number is closer to the exact difference of two numbers than their difference.
pub proof fn differences_are_nearest(x: nat, y: nat, v: nat)
    requires
        x > y,
        representable(v),
        nearest((x - y) as nat, 1) < pow2(2098),
    ensures
        difference(
            Num::Finite { neg: false, mag: x },
            Num::Finite { neg: false, mag: y },
        ) matches Num::Finite { neg, mag } && !neg && representable(mag) && distance(
            mag,
            (x - y) as nat,
        ) <= distance(v, (x - y) as nat),
{
    let gap = (x - y) as nat;
    lemma_nearest_is_nearest(gap, 1, v);
    lemma_nearest_representable(gap, 1);
    assert(nearest(gap, 1) * 1 == nearest(gap, 1) && v * 1 == v);
}

/// Sums and products do not depend on the order of their operands.
pub proof fn operands_commute(a: Num, b: Num)
    ensures
        sum(a, b) == sum(b, a),
        product(a, b) == product(b, a),
{
    if let (Num::Finite { mag: x, .. }, Num::Finite { mag: y, .. }) = (a, b) {
        assert(x * y == y * x) by (nonlinear_arith);
    }
}

/// One is neutral for products and quotients, zero for sums and differences, and a finite number
/// less itself is zero.
pub proof fn units_are_neutral(a: Binary64)
    ensures
        product(a@, one()) == a@,
        quotient(a@, one()) == a@,
        a@ is Finite ==> equal(sum(a@, nought()), a@) && equal(difference(a@, nought()), a@) && equal(
            difference(a@, a@),
            nought(),
        ),
        (a@ is Finite && !equal(a@, nought())) ==> quotient(a@, a@) == one(),
{
    let unit = pow2(1074);
    lemma_pow2_pos(1074);
    numbers_are_representable(a);
    lemma_pow2_127();
    lemma_pow2_weak(1075, 2098);
    lemma_pow2_unfold(1075);
    if let Num::Finite { mag, .. } = a@ {
        lemma_nearest_exact(mag, unit);
        lemma_nearest_exact(mag, 1);
        assert(mag * 1 == mag);
        assert(scaled(1, 1074) == unit);
        if mag > 0 {
            assert(mag * unit == unit * mag) by (nonlinear_arith);
            lemma_nearest_exact(unit, mag);
        }
    }
}

/// Signs multiply, and a number less another is that number plus its opposite.
pub proof fn signs_are_kept(a: Num, b: Num)
    ensures
        product(negated(a), b) == negated(product(a, b)),
        quotient(negated(a), b) == negated(quotient(a, b)),
        difference(a, negated(b)) == sum(a, b),
        negated(negated(a)) == a,
{
}

/// Two numbers that are not NaN stand in exactly one order, and the order is passed on.
pub proof fn numbers_are_ordered(a: Num, b: Num, c: Num)
    ensures
        a != Num::NaN && b != Num::NaN ==> at_most(a, b) || below(b, a),
        at_most(a, b) ==> !below(b, a),
        at_most(a, b) && at_most(b, a) <==> equal(a, b),
        at_most(a, b) && at_most(b, c) ==> at_most(a, c),
        below(a, b) && at_most(b, c) ==> below(a, c),
        !below(a, Num::NaN) && !below(Num::NaN, a) && !equal(a, Num::NaN),
        below(nought(), one()) && below(one(), hundred()) && below(hundred(), billion()) && below(
            nought(),
            epsilon(),
        ),
{
    lemma_pow2_pos(1074);
    lemma_pow2_pos(1022);
}

/// The larger and the smaller of two numbers are one each, in their order; a NaN is neither
/// unless both are.
pub proof fn extremes_are_operands(a: Num, b: Num)
    ensures
        larger(a, b) == a || larger(a, b) == b,
        smaller(a, b) == a || smaller(a, b) == b,
        a != Num::NaN ==> at_most(a, larger(a, b)) && at_most(smaller(a, b), a),
        b != Num::NaN ==> at_most(b, larger(a, b)) && at_most(smaller(a, b), b),
{
}

/// A number is rounded to the nearest integer, halves up, as long as that fits; a number that is
/// an integer is kept.
pub proof fn integers_are_nearest(mag: nat, n: u64)
    ensures
        mag < u64::MAX as nat * pow2(1074) ==> {
            let r = rounded_u64(Num::Finite { neg: false, mag }) as nat * pow2(1074);
            &&& 2 * r <= 2 * mag + pow2(1074)
            &&& 2 * mag < 2 * r + pow2(1074)
        },
        rounded_u64(Num::Finite { neg: false, mag: n as nat * pow2(1074) }) == n,
        rounded_u64(Num::Finite { neg: true, mag }) == 0,
        rounded_u64(Num::NaN) == 0,
{
    let unit = pow2(1074);
    lemma_pow2_pos(1074);
    lemma_pow2_pos(1073);
    lemma_pow2_unfold(1074);
    let w = mag + pow2(1073);
    let q = w / unit;
    lemma_fundamental_div_mod(w as int, unit as int);
    lemma_mod_bound(w as int, unit as int);
    assert(unit * q == q * unit) by (nonlinear_arith);
    if mag < u64::MAX as nat * unit {
        assert(q <= u64::MAX) by (nonlinear_arith)
            requires
                q * unit <= w,
                2 * w < 2 * (u64::MAX as nat * unit) + unit,
                unit > 0,
        ;
    }
    lemma_fundamental_div_mod_converse(
        (n as nat * unit + pow2(1073)) as int,
        unit as int,
        n as int,
        pow2(1073) as int,
    );
}

/// A finite number with a count of decimals is the nearest such decimal, and a negative one has
/// a sign in front of the text of its opposite.
pub proof fn fixed_decimals_are_nearest(mag: nat, places: nat)
    ensures
        ({
            let text = fixed(Num::Finite { neg: false, mag }, places);
            let at = text.len() - places - 1;
            let v = read_decimal(text.take(at)) * ten(places) + read_decimal(text.skip(at + 1));
            &&& at > 0 && text[at] == '.'
            &&& 2 * (mag * ten(places)) <= (2 * v + 1) * pow2(1074)
            &&& 2 * (v * pow2(1074)) <= 2 * (mag * ten(places)) + pow2(1074)
            &&& fixed(Num::Finite { neg: true, mag }, places) == seq!['-'] + text
        }),
{
    lemma_pow2_pos(1074);
    lemma_half_even_is_nearest(mag * ten(places), pow2(1074));
    points_stand_before_the_places(half_even(mag * ten(places), pow2(1074)), places);
    reveal_strlit("-");
    let text = pointed(half_even(mag * ten(places), pow2(1074)), places);
    assert("-"@ =~= seq!['-']);
    assert(Seq::<char>::empty() + text =~= text);
}

/// Bit patterns count up through the positive numbers, from zero to infinity: each pattern stands
/// for the number one unit in the last place above that of the pattern before it. The sign bit
/// turns a number into its opposite, and what is past infinity is no number.
pub proof fn patterns_count_up(bits: u64)
    requires
        bits < SIGN,
    ensures
        decode_bits(0) == (Num::Finite { neg: false, mag: 0 }),
        decode_bits(INFINITY) == (Num::Infinite { neg: false }),
        bits > INFINITY ==> decode_bits(bits) == Num::NaN,
        decode_bits((bits + SIGN) as u64) == negated(decode_bits(bits)),
        bits < INFINITY ==> decode_bits(bits) is Finite && !decode_bits(bits)->Finite_neg,
        bits + 1 < INFINITY ==> decode_bits((bits + 1) as u64)->Finite_mag == decode_bits(
            bits,
        )->Finite_mag + pow2(
            if bits < STEP {
                0
            } else {
                (bits / STEP - 1) as nat
            },
        ),
{
    lemma_pow2_127();
    let e = bits / STEP;
    let f = bits % STEP;
    assert((bits + SIGN) as u64 / STEP == 2048 + e && (bits + SIGN) as u64 % STEP == f);
    assert((2048 + e) % 2048 == e && e % 2048 == e);
    if bits + 1 < INFINITY {
        let next = (bits + 1) as u64;
        if f + 1 < STEP {
            assert(next / STEP == e && next % STEP == f + 1);
            if e > 0 {
                let p = pow2((e - 1) as nat);
                assert((STEP + (f + 1)) * p == (STEP + f) * p + p) by (nonlinear_arith);
            }
        } else {
            assert(next / STEP == e + 1 && next % STEP == 0);
            if e > 0 {
                let p = pow2((e - 1) as nat);
                lemma_pow2_unfold(e as nat);
                assert(STEP * (2 * p) == (STEP + f) * p + p) by (nonlinear_arith)
                    requires
                        f + 1 == STEP,
                ;
            } else {
                assert(STEP * pow2(0) == STEP) by (nonlinear_arith)
                    requires
                        pow2(0) == 1,
                ;
            }
        }
    }
}

/// The constants are multiples and fractions of one, and numbers that are not finite have names.
pub proof fn constants_are_multiples_of_one()
    ensures
        one() == (Num::Finite { neg: false, mag: pow2(1074) }),
        nought()->Finite_mag == 0 && !nought()->Finite_neg,
        hundred()->Finite_mag == 100 * one()->Finite_mag && !hundred()->Finite_neg,
        billion()->Finite_mag == 10_000_000 * hundred()->Finite_mag && !billion()->Finite_neg,
        epsilon()->Finite_mag * pow2(52) == one()->Finite_mag && !epsilon()->Finite_neg,
        forall|places: nat| #[trigger] fixed(Num::NaN, places) == "NaN"@,
        forall|places: nat| #[trigger] fixed(Num::Infinite { neg: false }, places) == "inf"@,
        forall|places: nat| #[trigger] fixed(Num::Infinite { neg: true }, places) == "-inf"@,
{
    lemma_pow2_adds(1022, 52);
}

/// A sum is a negative zero only where both operands are one, an infinity outweighs every
/// finite number, and what has no value is a NaN.
pub proof fn exceptional_operations_have_their_values(x: nat, s: bool, t: bool)
    requires
        x > 0,
    ensures
        ({
            let zero = |neg: bool| Num::Finite { neg, mag: 0 };
            let endless = |neg: bool| Num::Infinite { neg };
            let some = Num::Finite { neg: t, mag: x };
            &&& sum(zero(s), zero(t)) == zero(s && t)
            &&& sum(endless(s), endless(t)) == if s == t {
                endless(s)
            } else {
                Num::NaN
            }
            &&& sum(endless(s), some) == endless(s)
            &&& product(endless(s), zero(t)) == Num::NaN
            &&& product(endless(s), some) == endless(s != t)
            &&& product(endless(s), endless(t)) == endless(s != t)
            &&& product(zero(s), some) == zero(s != t)
            &&& quotient(some, zero(s)) == endless(s != t)
            &&& quotient(zero(s), zero(t)) == Num::NaN
            &&& quotient(endless(s), endless(t)) == Num::NaN
            &&& quotient(endless(s), some) == endless(s != t)
            &&& quotient(some, endless(s)) == zero(s != t)
            &&& quotient(zero(s), some) == zero(s != t)
            &&& rounded_u64(endless(s)) == if s {
                0
            } else {
                u64::MAX
            }
        }),
        forall|a: Num|
            #![trigger negated(a)]
            sum(a, Num::NaN) == Num::NaN && product(a, Num::NaN) == Num::NaN && quotient(
                a,
                Num::NaN,
            ) == Num::NaN && quotient(Num::NaN, a) == Num::NaN,
{
}

/// What is too large for a finite number becomes an infinity of the exact result's sign, and
/// nothing else does.
pub proof fn overflow_is_infinite(neg: bool, n: nat, d: nat)
    ensures
        nearest(n, d) >= pow2(2098) <==> rounded(neg, n, d) == (Num::Infinite { neg }),
        nearest(n, d) < pow2(2098) <==> rounded(neg, n, d) == (Num::Finite {
            neg,
            mag: nearest(n, d),
        }),
{
}

} // verus!
