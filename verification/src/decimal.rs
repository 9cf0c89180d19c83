//! Numbers written out in decimal.
use vstd::arithmetic::div_mod::{lemma_fundamental_div_mod, lemma_mod_bound};
use vstd::arithmetic::power::{lemma_pow_adds, lemma_pow_positive, pow};
use vstd::arithmetic::power2::pow2;
use vstd::prelude::*;
use vstd::string::*;

use crate::rounding::{
    half_even, lemma_half_even_exact, lemma_half_even_is, lemma_half_even_scales,
};

verus! {

/// The character of a decimal digit.
pub open spec fn digit_char(d: nat) -> char {
    (48 + d) as char
}

/// An integer in decimal, without leading zeros.
pub open spec fn decimal(n: nat) -> Seq<char>
    decreases n,
{
    if n < 10 {
        seq![digit_char(n)]
    } else {
        decimal(n / 10).push(digit_char(n % 10))
    }
}

/// Ten to the power `e`.
pub open spec fn ten(e: nat) -> nat {
    pow(10, e) as nat
}

/// The number that a sequence of digits stands for, lowest digit first.
pub open spec fn number(digits: Seq<u8>) -> nat
    decreases digits.len(),
{
    if digits.len() == 0 {
        0
    } else {
        number(digits.drop_last()) + digits.last() as nat * ten((digits.len() - 1) as nat)
    }
}

pub open spec fn all_digits(digits: Seq<u8>) -> bool {
    forall|i: int| 0 <= i < digits.len() ==> digits[i] < 10
}

proof fn lemma_ten_step(e: nat)
    ensures
        ten(0) == 1,
        ten(e) > 0,
        ten(e + 1) == 10 * ten(e),
{
    reveal(pow);
    lemma_pow_positive(10, e);
    lemma_pow_positive(10, e + 1);
    lemma_pow_positive(10, 0);
    assert(pow(10, e + 1) == 10 * pow(10, e));
}

/// Multiplies a digit sequence by a small factor.
fn scale_digits(digits: &mut Vec<u8>, factor: u8)
    requires
        all_digits(old(digits)@),
        factor <= 10,
    ensures
        all_digits(final(digits)@),
        number(final(digits)@) == factor * number(old(digits)@),
        final(digits)@.len() >= old(digits)@.len(),
{
    let ghost before = digits@;
    let mut carry: u8 = 0;
    let mut i: usize = 0;
    let len = digits.len();
    proof {
        lemma_ten_step(0);
        assert(before.take(0) =~= Seq::<u8>::empty());
        assert(factor * number(before.take(0)) == 0 && carry * ten(0) == 0) by (nonlinear_arith)
            requires
                number(before.take(0)) == 0,
                carry == 0,
        ;
    }
    while i < len
        invariant
            i <= len,
            len == digits@.len() == before.len(),
            factor <= 10,
            carry < 10,
            all_digits(before),
            all_digits(digits@),
            forall|k: int| i <= k < len ==> digits@[k] == before[k],
            number(digits@.take(i as int)) + carry * ten(i as nat) == factor * number(
                before.take(i as int),
            ),
        decreases len - i,
    {
        let ghost prior = digits@;
        assert(digits@[i as int] == before[i as int]);
        assert(digits@[i as int] * factor <= 90) by (nonlinear_arith)
            requires
                digits@[i as int] <= 9,
                factor <= 10,
        ;
        let t: u8 = digits[i] * factor + carry;
        digits.set(i, t % 10);
        proof {
            let d = before[i as int];
            lemma_ten_step(i as nat);
            assert(digits@.take(i + 1).drop_last() =~= prior.take(i as int));
            assert(before.take(i + 1).drop_last() =~= before.take(i as int));
            let u = ten(i as nat);
            let low = number(prior.take(i as int));
            let src = number(before.take(i as int));
            assert(low + (t % 10) * u + (t / 10) * (10 * u) == factor * (src + d * u))
                by (nonlinear_arith)
                requires
                    t == d * factor + carry,
                    t == 10 * (t / 10) + t % 10,
                    low + carry * u == factor * src,
            ;
        }
        carry = t / 10;
        i = i + 1;
    }
    assert(digits@.take(len as int) =~= digits@);
    assert(before.take(len as int) =~= before);
    if carry > 0 {
        let ghost prior = digits@;
        digits.push(carry);
        assert(digits@.drop_last() =~= prior);
    }
}

/// Adds one to a digit sequence.
fn increment(digits: &mut Vec<u8>)
    requires
        all_digits(old(digits)@),
    ensures
        all_digits(final(digits)@),
        number(final(digits)@) == number(old(digits)@) + 1,
        final(digits)@.len() >= old(digits)@.len(),
{
    let ghost before = digits@;
    let mut i: usize = 0;
    let len = digits.len();
    proof {
        lemma_ten_step(0);
        assert(before.take(0) =~= Seq::<u8>::empty());
        assert(number(before.take(0)) == 0);
    }
    while i < len && digits[i] == 9
        invariant
            i <= len,
            len == digits@.len() == before.len(),
            all_digits(digits@),
            all_digits(before),
            forall|k: int| i <= k < len ==> digits@[k] == before[k],
            number(digits@.take(i as int)) + ten(i as nat) == number(before.take(i as int)) + 1,
        decreases len - i,
    {
        let ghost prior = digits@;
        digits.set(i, 0);
        proof {
            lemma_ten_step(i as nat);
            assert(digits@.take(i + 1).drop_last() =~= prior.take(i as int));
            assert(before.take(i + 1).drop_last() =~= before.take(i as int));
            let u = ten(i as nat);
            assert(digits@[i as int] * u == 0 && before[i as int] * u == 9 * u) by (nonlinear_arith)
                requires
                    digits@[i as int] == 0,
                    before[i as int] == 9,
            ;
        }
        i = i + 1;
    }
    if i < len {
        let ghost prior = digits@;
        let d: u8 = digits[i];
        digits.set(i, d + 1);
        proof {
            assert(digits@.take(i + 1).drop_last() =~= prior.take(i as int));
            assert(before.take(i + 1).drop_last() =~= before.take(i as int));
            let u = ten(i as nat);
            assert((d + 1) * u == d * u + u) by (nonlinear_arith);
            lemma_number_tail(digits@, before, i + 1);
        }
    } else {
        let ghost prior = digits@;
        digits.push(1);
        proof {
            assert(prior.take(len as int) =~= prior);
            assert(before.take(len as int) =~= before);
            assert(digits@.drop_last() =~= prior);
            assert(1 * ten(len as nat) == ten(len as nat)) by (nonlinear_arith);
        }
    }
}

/// Two sequences that agree from position `k` on differ by what lies below it.
proof fn lemma_number_tail(a: Seq<u8>, b: Seq<u8>, k: int)
    requires
        a.len() == b.len(),
        0 <= k <= a.len(),
        forall|i: int| k <= i < a.len() ==> a[i] == b[i],
    ensures
        number(a) - number(a.take(k)) == number(b) - number(b.take(k)),
    decreases a.len(),
{
    if k == a.len() {
        assert(a.take(k) =~= a);
        assert(b.take(k) =~= b);
    } else {
        assert(a.drop_last().take(k) =~= a.take(k));
        assert(b.drop_last().take(k) =~= b.take(k));
        lemma_number_tail(a.drop_last(), b.drop_last(), k);
    }
}

/// A digit sequence cut in two.
proof fn lemma_number_split(a: Seq<u8>, k: int)
    requires
        0 <= k <= a.len(),
    ensures
        number(a) == number(a.take(k)) + number(a.skip(k)) * ten(k as nat),
    decreases a.len(),
{
    if k == a.len() {
        assert(a.take(k) =~= a);
        assert(a.skip(k) =~= Seq::<u8>::empty());
        assert(number(a.skip(k)) * ten(k as nat) == 0) by (nonlinear_arith)
            requires
                number(a.skip(k)) == 0,
        ;
    } else {
        assert(a.drop_last().take(k) =~= a.take(k));
        assert(a.drop_last().skip(k) =~= a.skip(k).drop_last());
        lemma_number_split(a.drop_last(), k);
        let h = (a.len() - 1 - k) as nat;
        lemma_pow_adds(10, h, k as nat);
        lemma_pow_positive(10, h);
        lemma_pow_positive(10, k as nat);
        let rest = number(a.skip(k).drop_last());
        let d = a.last() as nat;
        assert((rest + d * ten(h)) * ten(k as nat) == rest * ten(k as nat) + d * (ten(h) * ten(
            k as nat,
        ))) by (nonlinear_arith);
        assert(a.skip(k).last() == a.last());
    }
}

/// A sequence of `len` digits stands for a number below ten to the power `len`.
proof fn lemma_number_bound(a: Seq<u8>)
    requires
        all_digits(a),
    ensures
        number(a) < ten(a.len()),
    decreases a.len(),
{
    lemma_ten_step(0);
    if a.len() > 0 {
        lemma_number_bound(a.drop_last());
        let e = (a.len() - 1) as nat;
        lemma_ten_step(e);
        assert(a.last() * ten(e) <= 9 * ten(e)) by (nonlinear_arith)
            requires
                a.last() <= 9,
        ;
    }
}

/// The digits of an integer.
fn digits_of(n: u64) -> (r: Vec<u8>)
    ensures
        all_digits(r@),
        number(r@) == n,
        r@.len() > 0,
        r@.len() > 1 ==> r@.last() != 0,
{
    let mut out: Vec<u8> = Vec::new();
    let mut rest: u64 = n;
    proof {
        lemma_ten_step(0);
        assert(rest * ten(0) == rest) by (nonlinear_arith)
            requires
                ten(0) == 1,
        ;
    }
    while rest >= 10
        invariant
            all_digits(out@),
            number(out@) + rest * ten(out@.len()) == n,
            out@.len() > 0 ==> rest > 0,
        decreases rest,
    {
        let ghost prior = out@;
        let ghost whole = rest;
        let d: u8 = (rest % 10) as u8;
        out.push(d);
        rest = rest / 10;
        proof {
            assert(out@.drop_last() =~= prior);
            lemma_ten_step(prior.len());
            let u = ten(prior.len());
            assert(d * u + rest * (10 * u) == whole * u) by (nonlinear_arith)
                requires
                    whole == 10 * rest + d,
            ;
        }
    }
    let ghost prior = out@;
    out.push(rest as u8);
    assert(out@.drop_last() =~= prior);
    out
}

/// Multiplies a digit sequence by a power of a small factor.
fn scale_digits_by_power(digits: &mut Vec<u8>, factor: u8, times: u32)
    requires
        all_digits(old(digits)@),
        0 < factor <= 10,
    ensures
        all_digits(final(digits)@),
        number(final(digits)@) == number(old(digits)@) * pow(factor as int, times as nat),
        final(digits)@.len() >= old(digits)@.len(),
{
    let ghost before = digits@;
    let mut i: u32 = 0;
    proof {
        reveal(pow);
        assert(number(before) * pow(factor as int, 0) == number(before)) by (nonlinear_arith)
            requires
                pow(factor as int, 0) == 1,
        ;
    }
    while i < times
        invariant
            i <= times,
            0 < factor <= 10,
            all_digits(digits@),
            number(digits@) == number(before) * pow(factor as int, i as nat),
            digits@.len() >= before.len(),
        decreases times - i,
    {
        scale_digits(digits, factor);
        proof {
            reveal(pow);
            let u = pow(factor as int, i as nat);
            assert(pow(factor as int, i as nat + 1) == factor * u);
            assert(factor * (number(before) * u) == number(before) * (factor * u))
                by (nonlinear_arith);
        }
        i = i + 1;
    }
}

/// Zeros on top of a digit sequence do not change its number.
fn pad_digits(digits: &mut Vec<u8>, len: usize)
    requires
        all_digits(old(digits)@),
    ensures
        all_digits(final(digits)@),
        number(final(digits)@) == number(old(digits)@),
        final(digits)@.len() >= len,
        final(digits)@.len() >= old(digits)@.len(),
        final(digits)@.len() == len || final(digits)@ == old(digits)@,
{
    let ghost before = digits@;
    while digits.len() < len
        invariant
            all_digits(digits@),
            number(digits@) == number(before),
            digits@.len() >= before.len(),
            digits@.len() <= len || digits@ == before,
        decreases len - digits@.len(),
    {
        let ghost prior = digits@;
        digits.push(0);
        assert(digits@.drop_last() =~= prior);
        assert(digits@.last() * ten(prior.len()) == 0) by (nonlinear_arith)
            requires
                digits@.last() == 0,
        ;
    }
}

/// Whether a digit sequence stands for zero.
fn all_zero(digits: &Vec<u8>, len: usize) -> (r: bool)
    requires
        len <= digits@.len(),
        all_digits(digits@),
    ensures
        r == (number(digits@.take(len as int)) == 0),
{
    let mut i: usize = 0;
    assert(digits@.take(0) =~= Seq::<u8>::empty());
    while i < len
        invariant
            i <= len <= digits@.len(),
            number(digits@.take(i as int)) == 0,
        decreases len - i,
    {
        proof {
            lemma_ten_step(i as nat);
            assert(digits@.take(i + 1).drop_last() =~= digits@.take(i as int));
        }
        if digits[i] != 0 {
            proof {
                let d = digits@[i as int];
                let u = ten(i as nat);
                assert(d * u > 0) by (nonlinear_arith)
                    requires
                        d > 0,
                        u > 0,
                ;
                lemma_number_grows(digits@.take(len as int), i + 1);
                assert(digits@.take(len as int).take(i + 1) =~= digits@.take(i + 1));
            }
            return false;
        }
        assert(digits@[i as int] * ten(i as nat) == 0) by (nonlinear_arith)
            requires
                digits@[i as int] == 0,
        ;
        i = i + 1;
    }
    true
}

proof fn lemma_number_grows(a: Seq<u8>, k: int)
    requires
        0 <= k <= a.len(),
    ensures
        number(a) >= number(a.take(k)),
{
    lemma_number_split(a, k);
    lemma_pow_positive(10, k as nat);
    assert(number(a.skip(k)) * ten(k as nat) >= 0) by (nonlinear_arith);
}

/// Drops the lowest `cut` digits, rounding half to even.
fn round_digits(digits: &Vec<u8>, cut: usize) -> (r: Vec<u8>)
    requires
        0 < cut <= digits@.len(),
        all_digits(digits@),
    ensures
        all_digits(r@),
        number(r@) == half_even(number(digits@), ten(cut as nat)),
{
    let mut kept: Vec<u8> = Vec::new();
    let mut i: usize = cut;
    while i < digits.len()
        invariant
            cut <= i <= digits@.len(),
            all_digits(digits@),
            kept@ =~= digits@.subrange(cut as int, i as int),
        decreases digits@.len() - i,
    {
        kept.push(digits[i]);
        i = i + 1;
    }
    let top: u8 = digits[cut - 1];
    let clear = all_zero(digits, cut - 1);
    let odd = kept.len() > 0 && kept[0] % 2 == 1;
    let up = top > 5 || (top == 5 && (!clear || odd));
    proof {
        let all = digits@;
        assert(kept@ =~= all.skip(cut as int));
        lemma_number_split(all, cut as int);
        let low = number(all.take(cut - 1));
        let u = ten((cut - 1) as nat);
        assert(all.take(cut as int).drop_last() =~= all.take(cut - 1));
        lemma_ten_step((cut - 1) as nat);
        lemma_number_bound(all.take(cut - 1));
        lemma_number_bound(all.take(cut as int));
        let rest = number(all.take(cut as int));
        let q = number(kept@);
        if top > 5 {
            assert(top * u >= 6 * u) by (nonlinear_arith)
                requires
                    top >= 6,
                    u > 0,
            ;
        } else if top < 5 {
            assert(top * u <= 4 * u) by (nonlinear_arith)
                requires
                    top <= 4,
                    u > 0,
            ;
        } else {
            assert(top * u == 5 * u);
        }
        lemma_number_parity(kept@);
        assert((q + 1) * ten(cut as nat) == q * ten(cut as nat) + ten(cut as nat))
            by (nonlinear_arith);
        lemma_half_even_is(number(all), ten(cut as nat), q, up);
    }
    if up {
        increment(&mut kept);
    }
    kept
}

proof fn lemma_number_parity(a: Seq<u8>)
    ensures
        number(a) % 2 == (if a.len() > 0 { a[0] as nat % 2 } else { 0 }),
{
    if a.len() > 0 {
        lemma_number_split(a, 1);
        lemma_ten_step(0);
        assert(a.take(1).drop_last() =~= Seq::<u8>::empty());
        assert(number(a.take(1).drop_last()) == 0);
        assert(a[0] * ten(0) == a[0]) by (nonlinear_arith)
            requires
                ten(0) == 1,
        ;
        assert(number(a.skip(1)) * ten(1) == 10 * number(a.skip(1))) by (nonlinear_arith)
            requires
                ten(1) == 10,
        ;
    }
}

/// The digits of a finite binary64 magnitude, in units of the last decimal place.
pub fn fixed_digits(sig: u64, exp: u32, places: u32) -> (r: Vec<u8>)
    requires
        exp <= 2045,
        places <= 100,
    ensures
        all_digits(r@),
        number(r@) == half_even(sig as nat * pow2(exp as nat) * ten(places as nat), pow2(1074)),
{
    let mut digits = digits_of(sig);
    let ghost unit = pow2(1074);
    let ghost scale = ten(places as nat);
    proof {
        vstd::arithmetic::power2::lemma_pow2_pos(1074);
        lemma_pow_positive(10, places as nat);
    }
    if exp >= 1074 {
        let lift: u32 = exp - 1074;
        scale_digits_by_power(&mut digits, 2, lift);
        scale_digits_by_power(&mut digits, 10, places);
        proof {
            vstd::arithmetic::power2::lemma_pow2_adds(lift as nat, 1074);
            vstd::arithmetic::power2::lemma_pow2(lift as nat);
            let whole = number(digits@);
            assert(sig * pow2(exp as nat) * scale == whole * unit) by (nonlinear_arith)
                requires
                    pow2(exp as nat) == pow2(lift as nat) * unit,
                    whole == sig * pow2(lift as nat) * scale,
            ;
            lemma_half_even_exact(whole, unit);
        }
        digits
    } else {
        let drop: u32 = 1074 - exp;
        scale_digits_by_power(&mut digits, 5, drop);
        let ghost w = number(digits@);
        proof {
            lemma_fixed_ratio(sig as nat, exp as nat, drop as nat, scale);
            lemma_pow_positive(10, drop as nat);
        }
        if drop <= places {
            scale_digits_by_power(&mut digits, 10, places - drop);
            proof {
                let lift = ten((places - drop) as nat);
                lemma_pow_adds(10, (places - drop) as nat, drop as nat);
                lemma_pow_positive(10, (places - drop) as nat);
                assert(w * scale == (w * lift) * ten(drop as nat)) by (nonlinear_arith)
                    requires
                        scale == lift * ten(drop as nat),
                ;
                lemma_half_even_exact(w * lift, ten(drop as nat));
            }
            digits
        } else {
            let cut: u32 = drop - places;
            pad_digits(&mut digits, cut as usize);
            proof {
                lemma_pow_adds(10, cut as nat, places as nat);
                lemma_pow_positive(10, cut as nat);
                lemma_half_even_scales(w, ten(cut as nat), scale);
            }
            round_digits(&digits, cut as usize)
        }
    }
}

/// A binary fraction over its power of two, as a decimal fraction over a power of ten.
proof fn lemma_fixed_ratio(sig: nat, exp: nat, drop: nat, scale: nat)
    requires
        exp + drop == 1074,
    ensures
        half_even(sig * pow2(exp) * scale, pow2(1074)) == half_even(
            (sig * pow(5, drop)) as nat * scale,
            ten(drop),
        ),
{
    vstd::arithmetic::power2::lemma_pow2_adds(exp, drop);
    vstd::arithmetic::power2::lemma_pow2_pos(exp);
    vstd::arithmetic::power2::lemma_pow2_pos(drop);
    vstd::arithmetic::power2::lemma_pow2(drop);
    lemma_pow_positive(5, drop);
    vstd::arithmetic::power::lemma_pow_distributes(2, 5, drop);
    let n = sig * scale;
    let five = pow(5, drop) as nat;
    lemma_half_even_scales(n, pow2(drop), pow2(exp));
    lemma_half_even_scales(n, pow2(drop), five);
    assert(sig * pow2(exp) * scale == n * pow2(exp)) by (nonlinear_arith)
        requires
            n == sig * scale,
    ;
    assert(pow2(exp) * pow2(drop) == pow2(drop) * pow2(exp)) by (nonlinear_arith);
    assert((sig * five) * scale == n * five) by (nonlinear_arith)
        requires
            n == sig * scale,
    ;
    assert((sig * pow(5, drop)) == sig * five);
}

/// The lowest `places` decimal digits of `n`, leading zeros kept.
pub open spec fn padded(n: nat, places: nat) -> Seq<char>
    decreases places,
{
    if places == 0 {
        Seq::empty()
    } else {
        padded(n / 10, (places - 1) as nat).push(digit_char(n % 10))
    }
}

/// A number of hundredths, thousandths and so on with its decimal point.
pub open spec fn pointed(v: nat, places: nat) -> Seq<char> {
    decimal(v / ten(places)) + seq!['.'] + padded(v % ten(places), places)
}

/// A digit sequence as text, highest digit first.
spec fn written(digits: Seq<u8>) -> Seq<char> {
    Seq::new(digits.len(), |i: int| digit_char(digits[digits.len() - 1 - i] as nat))
}

proof fn lemma_number_lowest(a: Seq<u8>)
    requires
        a.len() > 0,
        all_digits(a),
    ensures
        number(a) == a[0] + 10 * number(a.skip(1)),
        number(a) / 10 == number(a.skip(1)),
        number(a) % 10 == a[0],
        all_digits(a.skip(1)),
        written(a) =~= written(a.skip(1)).push(digit_char(a[0] as nat)),
{
    lemma_number_split(a, 1);
    lemma_ten_step(0);
    assert(a.take(1).drop_last() =~= Seq::<u8>::empty());
    assert(number(a.take(1).drop_last()) == 0);
    assert(a[0] * ten(0) == a[0]) by (nonlinear_arith)
        requires
            ten(0) == 1,
    ;
    assert(number(a.skip(1)) * ten(1) == 10 * number(a.skip(1))) by (nonlinear_arith)
        requires
            ten(1) == 10,
    ;
}

proof fn lemma_written_padded(a: Seq<u8>)
    requires
        all_digits(a),
    ensures
        written(a) == padded(number(a), a.len()),
    decreases a.len(),
{
    if a.len() == 0 {
        assert(written(a) =~= Seq::<char>::empty());
    } else {
        lemma_number_lowest(a);
        lemma_written_padded(a.skip(1));
    }
}

proof fn lemma_written_decimal(a: Seq<u8>)
    requires
        all_digits(a),
        a.len() > 0,
        a.len() > 1 ==> a.last() != 0,
    ensures
        written(a) == decimal(number(a)),
        a.last() != 0 ==> number(a) > 0,
    decreases a.len(),
{
    lemma_number_lowest(a);
    if a.len() == 1 {
        assert(a.skip(1) =~= Seq::<u8>::empty());
        assert(number(a.skip(1)) == 0);
        assert(written(a) =~= seq![digit_char(a[0] as nat)]);
    } else {
        assert(a.skip(1).last() == a.last());
        lemma_written_decimal(a.skip(1));
    }
}

/// The one-character text of a digit.
fn digit_text(d: u8) -> (r: &'static str)
    requires
        d < 10,
    ensures
        r@ == seq![digit_char(d as nat)],
{
    proof {
        reveal_strlit("0");
        reveal_strlit("1");
        reveal_strlit("2");
        reveal_strlit("3");
        reveal_strlit("4");
        reveal_strlit("5");
        reveal_strlit("6");
        reveal_strlit("7");
        reveal_strlit("8");
        reveal_strlit("9");
    }
    if d == 0 {
        "0"
    } else if d == 1 {
        "1"
    } else if d == 2 {
        "2"
    } else if d == 3 {
        "3"
    } else if d == 4 {
        "4"
    } else if d == 5 {
        "5"
    } else if d == 6 {
        "6"
    } else if d == 7 {
        "7"
    } else if d == 8 {
        "8"
    } else {
        "9"
    }
}

/// Appends the digits from `hi` down to `lo`.
fn push_digits(out: &mut String, digits: &Vec<u8>, lo: usize, hi: usize)
    requires
        lo <= hi <= digits@.len(),
        all_digits(digits@),
    ensures
        final(out)@ == old(out)@ + written(digits@.subrange(lo as int, hi as int)),
{
    let ghost start = out@;
    let mut i: usize = hi;
    assert(start =~= start + written(digits@.subrange(hi as int, hi as int)));
    while i > lo
        invariant
            lo <= i <= hi <= digits@.len(),
            all_digits(digits@),
            out@ =~= start + written(digits@.subrange(i as int, hi as int)),
        decreases i,
    {
        i = i - 1;
        out.append(digit_text(digits[i]));
        proof {
            let longer = digits@.subrange(i as int, hi as int);
            assert(longer.skip(1) =~= digits@.subrange(i + 1, hi as int));
            lemma_number_lowest(longer);
        }
    }
}

/// Appends an integer in decimal.
pub fn push_decimal(out: &mut String, n: u64)
    ensures
        final(out)@ == old(out)@ + decimal(n as nat),
{
    let digits = digits_of(n);
    let len = digits.len();
    push_digits(out, &digits, 0, len);
    proof {
        assert(digits@.subrange(0, len as int) =~= digits@);
        lemma_written_decimal(digits@);
    }
}

/// Appends a number of last places with its decimal point.
pub fn push_pointed(out: &mut String, digits: Vec<u8>, places: u32)
    requires
        all_digits(digits@),
        places <= 100,
    ensures
        final(out)@ == old(out)@ + pointed(number(digits@), places as nat),
{
    let ghost v = number(digits@);
    let ghost start = out@;
    let mut digits = digits;
    let low: usize = places as usize;
    pad_digits(&mut digits, low + 1);
    let mut len: usize = digits.len();
    proof {
        assert(digits@.take(len as int) =~= digits@);
    }
    while len > low + 1 && digits[len - 1] == 0
        invariant
            low < len <= digits@.len(),
            all_digits(digits@),
            number(digits@.take(len as int)) == v,
        decreases len,
    {
        proof {
            assert(digits@.take(len as int).drop_last() =~= digits@.take(len - 1));
            assert(digits@[len - 1] * ten((len - 1) as nat) == 0) by (nonlinear_arith)
                requires
                    digits@[len - 1] == 0,
            ;
        }
        len = len - 1;
    }
    proof {
        let all = digits@.take(len as int);
        let whole = all.skip(low as int);
        let part = all.take(low as int);
        lemma_number_split(all, low as int);
        lemma_number_bound(part);
        lemma_pow_positive(10, low as nat);
        assert(number(whole) * ten(low as nat) == ten(low as nat) * number(whole))
            by (nonlinear_arith);
        vstd::arithmetic::div_mod::lemma_fundamental_div_mod_converse(
            v as int,
            ten(low as nat) as int,
            number(whole) as int,
            number(part) as int,
        );
        lemma_written_decimal(whole);
        lemma_written_padded(part);
        assert(digits@.subrange(low as int, len as int) =~= whole);
        assert(digits@.subrange(0, low as int) =~= part);
        reveal_strlit(".");
        assert("."@ =~= seq!['.']);
    }
    push_digits(out, &digits, low, len);
    out.append(".");
    push_digits(out, &digits, 0, low);
    assert(out@ =~= start + pointed(v, places as nat));
}

// ---- laws ----------------------------------------------------------------

/// The number that a text of decimal digits stands for, highest digit first.
pub open spec fn read_decimal(text: Seq<char>) -> nat
    decreases text.len(),
{
    if text.len() == 0 {
        0
    } else {
        10 * read_decimal(text.drop_last()) + (text.last() as nat - '0' as nat) as nat
    }
}

pub open spec fn is_decimal(text: Seq<char>) -> bool {
    forall|i: int| 0 <= i < text.len() ==> '0' <= #[trigger] text[i] <= '9'
}

/// An integer in decimal is made of digits, has no leading zero, and is read back as itself; so
/// different integers have different texts.
pub proof fn decimals_read_back(n: nat)
    ensures
        is_decimal(decimal(n)),
        decimal(n).len() > 0,
        decimal(n).len() > 1 ==> decimal(n)[0] != '0',
        n > 0 ==> decimal(n)[0] != '0',
        read_decimal(decimal(n)) == n,
    decreases n,
{
    let text = decimal(n);
    if n < 10 {
        assert(text.drop_last() =~= Seq::<char>::empty());
        assert(read_decimal(text.drop_last()) == 0);
    } else {
        decimals_read_back(n / 10);
        assert(text.drop_last() =~= decimal(n / 10));
        assert(text[0] == decimal(n / 10)[0]);
        assert forall|i: int| 0 <= i < text.len() implies '0' <= #[trigger] text[i] <= '9' by {
            if i < text.len() - 1 {
                assert(text[i] == decimal(n / 10)[i]);
            }
        }
    }
}

/// A number padded to a count of digits has that many, and is read back as itself where it fits.
pub proof fn padded_decimals_read_back(n: nat, places: nat)
    requires
        n < ten(places),
    ensures
        padded(n, places).len() == places,
        is_decimal(padded(n, places)),
        read_decimal(padded(n, places)) == n,
    decreases places,
{
    let text = padded(n, places);
    if places == 0 {
        lemma_ten_step(0);
    } else {
        let e = (places - 1) as nat;
        lemma_ten_step(e);
        padded_decimals_read_back(n / 10, e);
        assert(text.drop_last() =~= padded(n / 10, e));
        assert forall|i: int| 0 <= i < text.len() implies '0' <= #[trigger] text[i] <= '9' by {
            if i < e {
                assert(text[i] == padded(n / 10, e)[i]);
            }
        }
    }
}

/// A number with a decimal point has its point in front of as many digits as were asked for; the
/// digits before and behind it, taken together, are the number.
pub proof fn points_stand_before_the_places(v: nat, places: nat)
    ensures
        ({
            let text = pointed(v, places);
            let at = text.len() - places - 1;
            &&& at > 0
            &&& text[at] == '.'
            &&& is_decimal(text.take(at)) && is_decimal(text.skip(at + 1))
            &&& read_decimal(text.take(at)) * ten(places) + read_decimal(text.skip(at + 1)) == v
        }),
{
    lemma_ten_step(places);
    let t = ten(places);
    let text = pointed(v, places);
    let whole = decimal(v / t);
    lemma_fundamental_div_mod(v as int, t as int);
    lemma_mod_bound(v as int, t as int);
    decimals_read_back(v / t);
    padded_decimals_read_back(v % t, places);
    assert(text.take(whole.len() as int) =~= whole);
    assert(text.skip(whole.len() as int + 1) =~= padded(v % t, places));
    assert((v / t) * t == t * (v / t)) by (nonlinear_arith);
}

} // verus!
