//! Rounding of exact rationals to 53 significant bits, ties to even.
//!
//! Magnitudes are rationals `n / d`, counted in units of the smallest positive
//! binary64 number (two to the power -1074), so that every finite binary64
//! magnitude is an integer.
use vstd::arithmetic::div_mod::{
    lemma_fundamental_div_mod, lemma_fundamental_div_mod_converse, lemma_mod_bound,
};
use vstd::arithmetic::power2::{
    lemma_pow2_adds, lemma_pow2_pos, lemma_pow2_strictly_increases, lemma_pow2_unfold, pow2,
};
use vstd::prelude::*;

verus! {

/// `n / d` rounded to an integer; a tie goes to the even neighbour.
pub open spec fn half_even(n: nat, d: nat) -> nat {
    let q = n / d;
    let r = n % d;
    if 2 * r < d || (2 * r == d && q % 2 == 0) {
        q
    } else {
        q + 1
    }
}

/// `k` is the least exponent at which `n / d` fits in 53 bits.
pub open spec fn is_spacing(n: nat, d: nat, k: nat) -> bool {
    &&& n < pow2(53 + k) * d
    &&& k > 0 ==> pow2((52 + k) as nat) * d <= n
}

/// The spacing exponent of the binary64 numbers around `n / d`.
pub open spec fn spacing(n: nat, d: nat) -> nat {
    choose|k: nat| is_spacing(n, d, k)
}

/// The number of at most 53 significant bits that lies nearest to `n / d`.
pub open spec fn nearest(n: nat, d: nat) -> nat {
    half_even(n, d * pow2(spacing(n, d))) * pow2(spacing(n, d))
}

/// `v` is an integer of at most 53 significant bits.
pub open spec fn representable(v: nat) -> bool {
    exists|m: nat, k: nat| #[trigger] scaled(m, k) == v && m < pow2(53)
}

pub open spec fn scaled(m: nat, k: nat) -> nat {
    m * pow2(k)
}

/// A spacing exponent never exceeds another one of the same number.
proof fn lemma_spacing_unique(n: nat, d: nat, j: nat, k: nat)
    requires
        d > 0,
        is_spacing(n, d, j),
        is_spacing(n, d, k),
    ensures
        j >= k,
{
    if j < k {
        lemma_pow2_weak(53 + j, (52 + k) as nat);
        assert(pow2(53 + j) * d <= pow2((52 + k) as nat) * d) by (nonlinear_arith)
            requires
                pow2(53 + j) <= pow2((52 + k) as nat),
                d > 0,
        ;
    }
}

pub proof fn lemma_pow2_weak(a: nat, b: nat)
    requires
        a <= b,
    ensures
        0 < pow2(a) <= pow2(b),
{
    lemma_pow2_pos(a);
    if a < b {
        lemma_pow2_strictly_increases(a, b);
    }
}

pub proof fn lemma_spacing_is(n: nat, d: nat, k: nat)
    requires
        d > 0,
        is_spacing(n, d, k),
    ensures
        spacing(n, d) == k,
{
    lemma_spacing_unique(n, d, spacing(n, d), k);
    lemma_spacing_unique(n, d, k, spacing(n, d));
}

/// Every number has a spacing exponent.
pub proof fn lemma_spacing_exists(n: nat, d: nat)
    requires
        d > 0,
    ensures
        is_spacing(n, d, spacing(n, d)),
{
    lemma_spacing_search(n, d, 0);
}

/// Finds a spacing exponent from `k` on.
proof fn lemma_spacing_search(n: nat, d: nat, k: nat)
    requires
        d > 0,
        k > 0 ==> pow2((52 + k) as nat) * d <= n,
    ensures
        exists|j: nat| is_spacing(n, d, j),
    decreases n - k,
{
    if n < pow2(53 + k) * d {
        assert(is_spacing(n, d, k));
    } else {
        lemma_pow2_exceeds(53 + k);
        assert(n > k) by (nonlinear_arith)
            requires
                n >= pow2(53 + k) * d,
                pow2(53 + k) > 53 + k,
                d > 0,
        ;
        lemma_spacing_search(n, d, k + 1);
    }
}

proof fn lemma_pow2_exceeds(e: nat)
    ensures
        pow2(e) > e,
    decreases e,
{
    if e == 0 {
        lemma_pow2_pos(0);
    } else {
        lemma_pow2_exceeds((e - 1) as nat);
        lemma_pow2_unfold(e);
    }
}

/// The rounding of `n / d` on its own scale: the multiple of two to the power `k` below it
/// or the one above it.
proof fn lemma_nearest_parts(n: nat, d: nat) -> (r: (nat, nat))
    requires
        d > 0,
    ensures
        is_spacing(n, d, r.1),
        r.0 * pow2(r.1) * d <= n < (r.0 + 1) * pow2(r.1) * d,
        nearest(n, d) == r.0 * pow2(r.1) || (nearest(n, d) == (r.0 + 1) * pow2(r.1) && n > r.0
            * pow2(r.1) * d),
        r.0 < pow2(53),
        r.1 > 0 ==> r.0 >= pow2(52),
{
    lemma_spacing_exists(n, d);
    let k = spacing(n, d);
    let p = pow2(k);
    lemma_pow2_pos(k);
    let dk = d * p;
    assert(dk > 0) by (nonlinear_arith)
        requires
            d > 0,
            p > 0,
            dk == d * p,
    ;
    let q = n / dk;
    lemma_fundamental_div_mod(n as int, dk as int);
    assert(q * p * d <= n < (q + 1) * p * d) by (nonlinear_arith)
        requires
            n == dk * q + n % dk,
            0 <= n % dk < dk,
            dk == d * p,
    ;
    if half_even(n, dk) != q {
        assert(n > q * p * d) by (nonlinear_arith)
            requires
                n == dk * q + n % dk,
                n % dk > 0,
                dk == d * p,
        ;
    }
    lemma_pow2_adds(53, k);
    assert(q < pow2(53)) by (nonlinear_arith)
        requires
            q * p * d <= n,
            n < pow2(53) * p * d,
            p > 0,
            d > 0,
    ;
    if k > 0 {
        lemma_pow2_adds(52, k);
        assert(q >= pow2(52)) by (nonlinear_arith)
            requires
                n < (q + 1) * p * d,
                pow2(52) * p * d <= n,
                p > 0,
                d > 0,
        ;
    }
    (q, k)
}

/// Rounding gives a number of at most 53 significant bits.
pub proof fn lemma_nearest_representable(n: nat, d: nat)
    requires
        d > 0,
    ensures
        representable(nearest(n, d)),
{
    let (q, k) = lemma_nearest_parts(n, d);
    lemma_pow2_127();
    if nearest(n, d) == q * pow2(k) {
        assert(scaled(q, k) == nearest(n, d));
    } else if q + 1 < pow2(53) {
        assert(scaled(q + 1, k) == nearest(n, d));
    } else {
        lemma_pow2_unfold(k + 1);
        assert(pow2(52) * (2 * pow2(k)) == (q + 1) * pow2(k)) by (nonlinear_arith)
            requires
                q + 1 == 2 * pow2(52),
        ;
        assert(scaled(pow2(52), k + 1) == nearest(n, d));
    }
}

/// A large enough number of 53 significant bits is a multiple of a power of two.
proof fn lemma_representable_multiple(v: nat, k: nat) -> (c: nat)
    requires
        representable(v),
        v >= pow2((52 + k) as nat),
    ensures
        v == c * pow2(k),
{
    let (m, j) = choose|m: nat, j: nat| #[trigger] scaled(m, j) == v && m < pow2(53);
    lemma_pow2_pos(j);
    if j < k {
        lemma_pow2_adds(53, j);
        lemma_pow2_weak(53 + j, (52 + k) as nat);
        assert(m * pow2(j) < pow2(53) * pow2(j)) by (nonlinear_arith)
            requires
                m < pow2(53),
                pow2(j) > 0,
        ;
    }
    let h = (j - k) as nat;
    lemma_pow2_adds(h, k);
    assert(m * (pow2(h) * pow2(k)) == (m * pow2(h)) * pow2(k)) by (nonlinear_arith);
    m * pow2(h)
}

/// Rounding does not pass a representable number above.
pub proof fn lemma_nearest_upper(n: nat, d: nat, v: nat)
    requires
        d > 0,
        n <= v * d,
        representable(v),
    ensures
        nearest(n, d) <= v,
{
    let (q, k) = lemma_nearest_parts(n, d);
    let p = pow2(k);
    lemma_pow2_pos(k);
    assert(q * p <= v) by (nonlinear_arith)
        requires
            q * p * d <= n,
            n <= v * d,
            d > 0,
    ;
    if nearest(n, d) == (q + 1) * p && n > q * p * d {
        assert(q * p < v) by (nonlinear_arith)
            requires
                q * p * d < n,
                n <= v * d,
                d > 0,
        ;
        let c = if k == 0 {
            lemma_pow2_127();
            assert(v * 1 == v);
            v
        } else {
            assert(v >= pow2((52 + k) as nat)) by (nonlinear_arith)
                requires
                    pow2((52 + k) as nat) * d <= n,
                    n <= v * d,
                    d > 0,
            ;
            lemma_representable_multiple(v, k)
        };
        assert(c > q) by (nonlinear_arith)
            requires
                q * p < c * p,
                p > 0,
        ;
        assert((q + 1) * p <= c * p) by (nonlinear_arith)
            requires
                q + 1 <= c,
                p > 0,
        ;
    }
}

/// Rounding does not pass a representable number below.
pub proof fn lemma_nearest_lower(n: nat, d: nat, v: nat)
    requires
        d > 0,
        v * d <= n,
        representable(v),
    ensures
        v <= nearest(n, d),
{
    let (q, k) = lemma_nearest_parts(n, d);
    let p = pow2(k);
    lemma_pow2_pos(k);
    assert(v < (q + 1) * p) by (nonlinear_arith)
        requires
            v * d <= n,
            n < (q + 1) * p * d,
            d > 0,
    ;
    if nearest(n, d) == q * p {
        if k > 0 && v < pow2((52 + k) as nat) {
            lemma_pow2_adds(52, k);
            assert(pow2(52) * p <= q * p) by (nonlinear_arith)
                requires
                    pow2(52) <= q,
                    p > 0,
            ;
        } else {
            let c = if k == 0 {
                lemma_pow2_127();
                assert(v * 1 == v);
                v
            } else {
                lemma_representable_multiple(v, k)
            };
            assert(c <= q) by (nonlinear_arith)
                requires
                    c * p < (q + 1) * p,
                    p > 0,
            ;
            assert(c * p <= q * p) by (nonlinear_arith)
                requires
                    c <= q,
                    p > 0,
            ;
        }
    }
}

/// Rounding to an integer is off by at most a half, and by a half only towards an even integer.
pub proof fn lemma_half_even_is_nearest(n: nat, d: nat)
    requires
        d > 0,
    ensures
        2 * n <= (2 * half_even(n, d) + 1) * d,
        2 * (half_even(n, d) * d) <= 2 * n + d,
        2 * n == (2 * half_even(n, d) + 1) * d || 2 * (half_even(n, d) * d) == 2 * n + d
            ==> half_even(n, d) % 2 == 0,
{
    let q = n / d;
    let r = n % d;
    lemma_fundamental_div_mod(n as int, d as int);
    lemma_mod_bound(n as int, d as int);
    assert(d * q == q * d && (2 * q + 1) * d == 2 * (q * d) + d && (q + 1) * d == q * d + d && (2
        * (q + 1) + 1) * d == 2 * (q * d) + 3 * d) by (nonlinear_arith);
}

/// How far apart two numbers are.
pub open spec fn distance(a: nat, b: nat) -> nat {
    if a >= b {
        (a - b) as nat
    } else {
        (b - a) as nat
    }
}

/// No number of 53 significant bits lies closer to `n / d` than the one it is rounded to.
pub proof fn lemma_nearest_is_nearest(n: nat, d: nat, v: nat)
    requires
        d > 0,
        representable(v),
    ensures
        distance(nearest(n, d) * d, n) <= distance(v * d, n),
{
    let k = spacing(n, d);
    let p = pow2(k);
    let dp = d * p;
    lemma_spacing_exists(n, d);
    lemma_pow2_pos(k);
    assert(dp > 0) by (nonlinear_arith)
        requires
            dp == d * p,
            d > 0,
            p > 0,
    ;
    lemma_half_even_is_nearest(n, dp);
    let h = half_even(n, dp);
    let w = h * p;
    assert(w * d == h * dp) by (nonlinear_arith)
        requires
            w == h * p,
            dp == d * p,
    ;
    assert((2 * h + 1) * dp == 2 * (h * dp) + dp) by (nonlinear_arith);
    if w * d < n && v * d >= n {
        lemma_next_above(n, d, k, h, v);
    } else if w * d > n && v * d <= n {
        lemma_next_below(n, d, k, h, v);
    } else if w * d < n {
        if v > w {
            lemma_nearest_lower(n, d, v);
        }
        assert(v * d <= w * d) by (nonlinear_arith)
            requires
                v <= w,
        ;
    } else if w * d > n {
        if v < w {
            lemma_nearest_upper(n, d, v);
        }
        assert(w * d <= v * d) by (nonlinear_arith)
            requires
                w <= v,
        ;
    }
}

proof fn lemma_next_above(n: nat, d: nat, k: nat, h: nat, v: nat)
    requires
        d > 0,
        representable(v),
        is_spacing(n, d, k),
        h * (d * pow2(k)) < n,
        2 * n <= 2 * (h * (d * pow2(k))) + d * pow2(k),
        v * d >= n,
    ensures
        n - h * (d * pow2(k)) <= v * d - n,
{
    let p = pow2(k);
    let dp = d * p;
    lemma_pow2_pos(k);
    lemma_pow2_127();
    assert(v > h * p) by (nonlinear_arith)
        requires
            h * dp < n,
            v * d >= n,
            dp == d * p,
            d > 0,
    ;
    let c = if k == 0 {
        assert(v * p == v) by (nonlinear_arith)
            requires
                p == 1,
        ;
        v
    } else {
        let low = pow2((52 + k) as nat);
        assert(v >= low) by (nonlinear_arith)
            requires
                v * d >= n,
                low * d <= n,
                d > 0,
        ;
        lemma_representable_multiple(v, k)
    };
    assert(c >= h + 1) by (nonlinear_arith)
        requires
            c * p > h * p,
            p > 0,
    ;
    assert(v * d >= h * dp + dp) by (nonlinear_arith)
        requires
            v == c * p,
            c >= h + 1,
            dp == d * p,
            d > 0,
            p > 0,
    ;
}

proof fn lemma_next_below(n: nat, d: nat, k: nat, h: nat, v: nat)
    requires
        d > 0,
        representable(v),
        is_spacing(n, d, k),
        h * (d * pow2(k)) > n,
        2 * (h * (d * pow2(k))) <= 2 * n + d * pow2(k),
        v * d <= n,
    ensures
        h * (d * pow2(k)) - n <= n - v * d,
{
    let p = pow2(k);
    let dp = d * p;
    lemma_pow2_pos(k);
    lemma_pow2_127();
    assert(v < h * p) by (nonlinear_arith)
        requires
            h * dp > n,
            v * d <= n,
            dp == d * p,
            d > 0,
    ;
    assert(h > 0) by (nonlinear_arith)
        requires
            v < h * p,
    ;
    let low = pow2((52 + k) as nat);
    if k > 0 && v < low {
        lemma_pow2_adds(52, k);
        assert(h > pow2(52)) by (nonlinear_arith)
            requires
                low * d <= n,
                n < h * dp,
                dp == d * p,
                low == pow2(52) * p,
                d > 0,
                p > 0,
        ;
        assert((h - 1) * p >= low) by (nonlinear_arith)
            requires
                h - 1 >= pow2(52),
                low == pow2(52) * p,
        ;
        assert(v * d <= h * dp - dp) by (nonlinear_arith)
            requires
                v <= (h - 1) * p,
                dp == d * p,
                d > 0,
        ;
    } else {
        let c = if k == 0 {
            assert(v * p == v) by (nonlinear_arith)
                requires
                    p == 1,
            ;
            v
        } else {
            lemma_representable_multiple(v, k)
        };
        assert(c <= h - 1) by (nonlinear_arith)
            requires
                c * p < h * p,
                p > 0,
        ;
        assert(v * d <= h * dp - dp) by (nonlinear_arith)
            requires
                v == c * p,
                c <= h - 1,
                dp == d * p,
                d > 0,
                p > 0,
        ;
    }
}

/// A number that can be written with 53 bits is not rounded.
pub proof fn lemma_nearest_exact(v: nat, d: nat)
    requires
        d > 0,
        representable(v),
    ensures
        nearest(v * d, d) == v,
{
    lemma_nearest_upper(v * d, d, v);
    lemma_nearest_lower(v * d, d, v);
}

/// Away from the smallest numbers, rounding keeps to the scale: a power of two can be moved
/// through it.
pub proof fn lemma_nearest_scales(n: nat, d: nat, k: nat)
    requires
        d > 0,
        n >= pow2(52) * d,
    ensures
        nearest(n * pow2(k), d) == nearest(n, d) * pow2(k),
{
    let c = pow2(k);
    let j = spacing(n, d);
    let p = pow2(j);
    lemma_pow2_pos(k);
    lemma_pow2_pos(j);
    lemma_spacing_exists(n, d);
    lemma_pow2_adds(j, k);
    lemma_pow2_adds(53 + j, k);
    lemma_pow2_adds((52 + j) as nat, k);
    assert(n * c < pow2(53 + j) * c * d) by (nonlinear_arith)
        requires
            n < pow2(53 + j) * d,
            c > 0,
    ;
    assert(pow2((52 + j) as nat) * c * d <= n * c) by (nonlinear_arith)
        requires
            pow2((52 + j) as nat) * d <= n,
            c > 0,
    ;
    assert((53 + j) + k == 53 + (j + k) && (52 + j) + k == 52 + (j + k));
    lemma_spacing_is(n * c, d, j + k);
    assert(d * p > 0) by (nonlinear_arith)
        requires
            d > 0,
            p > 0,
    ;
    lemma_half_even_scales(n, d * p, c);
    assert(d * p * c == d * pow2(j + k)) by (nonlinear_arith)
        requires
            p * c == pow2(j + k),
    ;
    let h = half_even(n, d * p);
    assert(h * pow2(j + k) == h * p * c) by (nonlinear_arith)
        requires
            p * c == pow2(j + k),
    ;
}

/// The largest number below one is one less half a unit in its last place, and the next one
/// is as far below that.
proof fn lemma_below_one(y: nat)
    requires
        representable(y),
        y < pow2(1074),
    ensures
        y + pow2(1021) <= pow2(1074),
        y + pow2(1021) != pow2(1074) ==> y + 2 * pow2(1021) <= pow2(1074),
{
    lemma_pow2_127();
    lemma_pow2_adds(53, 1021);
    lemma_pow2_unfold(1074);
    lemma_pow2_unfold(1022);
    lemma_pow2_weak(1022, 1073);
    if y >= pow2(1073) {
        let c = lemma_representable_multiple(y, 1021);
        let p = pow2(1021);
        lemma_pow2_pos(1021);
        assert(c < pow2(53)) by (nonlinear_arith)
            requires
                c * p < pow2(53) * p,
                p > 0,
        ;
        assert((c + 1) * p <= pow2(53) * p) by (nonlinear_arith)
            requires
                c + 1 <= pow2(53),
        ;
        assert((c + 1) * p == c * p + p) by (nonlinear_arith);
        if c + 1 < pow2(53) {
            assert((c + 2) * p <= pow2(53) * p) by (nonlinear_arith)
                requires
                    c + 2 <= pow2(53),
            ;
            assert((c + 2) * p == c * p + 2 * p) by (nonlinear_arith);
        }
    }
}

/// A normal number becomes less when it is multiplied by one below one. The smallest normal
/// number times the largest number below one is the one case where the product rounds back up.
pub proof fn lemma_nearest_shrinks(x: nat, y: nat)
    requires
        representable(x),
        x >= pow2(52),
        representable(y),
        y < pow2(1074),
        !(x == pow2(52) && y + pow2(1021) == pow2(1074)),
    ensures
        nearest(x * y, pow2(1074)) < x,
{
    let d = pow2(1074);
    let n = x * y;
    let k = spacing(x, 1);
    let p = pow2(k);
    lemma_pow2_127();
    lemma_spacing_exists(x, 1);
    lemma_below_one(y);
    lemma_pow2_pos(k);
    lemma_pow2_pos(1074);
    lemma_pow2_pos(1021);
    lemma_pow2_adds(52, k);
    lemma_pow2_adds(53, k);
    lemma_pow2_adds(53, 1021);
    assert(x * 1 == x && pow2(53 + k) * 1 == pow2(53 + k) && pow2((52 + k) as nat) * 1 == pow2(
        (52 + k) as nat,
    ));
    let s = if k == 0 {
        assert(x * pow2(0) == x);
        x
    } else {
        lemma_representable_multiple(x, k)
    };
    assert(pow2(52) <= s < pow2(53)) by (nonlinear_arith)
        requires
            pow2(52) * p <= s * p,
            s * p < pow2(53) * p,
            p > 0,
    ;
    assert(n + x * pow2(1021) <= x * d) by (nonlinear_arith)
        requires
            n == x * y,
            y + pow2(1021) <= d,
    ;
    if x == pow2(52) {
        let v = (pow2(52) - 1) as nat;
        assert(scaled(v, 0) == v) by (nonlinear_arith)
            requires
                pow2(0) == 1,
        ;
        assert(n <= v * d) by (nonlinear_arith)
            requires
                n == pow2(52) * y,
                v == pow2(52) - 1,
                y + 2 * pow2(1021) <= d,
                d == pow2(53) * pow2(1021),
                pow2(53) == 2 * pow2(52),
        ;
        lemma_nearest_upper(n, d, v);
    } else if s == pow2(52) {
        assert(k > 0) by {
            assert(pow2(52) * pow2(0) == pow2(52)) by (nonlinear_arith)
                requires
                    pow2(0) == 1,
            ;
        }
        lemma_pow2_unfold(k);
        let h = pow2((k - 1) as nat);
        let v = (pow2(53) - 1) as nat * h;
        assert(scaled((pow2(53) - 1) as nat, (k - 1) as nat) == v);
        assert(v + h == x) by (nonlinear_arith)
            requires
                v == (pow2(53) - 1) * h,
                x == pow2(52) * p,
                p == 2 * h,
                pow2(53) == 2 * pow2(52),
        ;
        assert(x * pow2(1021) == h * d) by (nonlinear_arith)
            requires
                x == pow2(52) * (2 * h),
                pow2(53) == 2 * pow2(52),
                d == pow2(53) * pow2(1021),
        ;
        assert(n <= v * d) by (nonlinear_arith)
            requires
                n + h * d <= x * d,
                v + h == x,
        ;
        lemma_pow2_pos((k - 1) as nat);
        lemma_nearest_upper(n, d, v);
    } else {
        let (q, j) = lemma_nearest_parts(n, d);
        assert(2 * n + p * d < 2 * (s * p * d)) by (nonlinear_arith)
            requires
                n + x * pow2(1021) <= x * d,
                x == s * p,
                s > pow2(52),
                d == pow2(53) * pow2(1021),
                pow2(53) == 2 * pow2(52),
                p > 0,
                pow2(1021) > 0,
        ;
        if j < k {
            assert(scaled(pow2(52), k) == pow2(52) * p);
            lemma_pow2_weak(53 + j, (52 + k) as nat);
            assert(n <= pow2(52) * p * d) by (nonlinear_arith)
                requires
                    n < pow2(53 + j) * d,
                    pow2(53 + j) <= pow2(52) * p,
                    d > 0,
            ;
            lemma_nearest_upper(n, d, pow2(52) * p);
            assert(pow2(52) * p < s * p) by (nonlinear_arith)
                requires
                    pow2(52) < s,
                    p > 0,
            ;
        } else if j > k {
            lemma_pow2_weak(53 + k, (52 + j) as nat);
            assert(false) by (nonlinear_arith)
                requires
                    pow2((52 + j) as nat) * d <= n,
                    pow2(53) * p <= pow2((52 + j) as nat),
                    s < pow2(53),
                    2 * n + p * d < 2 * (s * p * d),
                    p > 0,
                    d > 0,
            ;
        } else {
            lemma_spacing_is(n, d, k);
            let dk = d * p;
            assert(dk > 0 && q * dk <= n < (q + 1) * dk && 2 * n + dk < 2 * (s * dk))
                by (nonlinear_arith)
                requires
                    dk == d * p,
                    q * p * d <= n,
                    n < (q + 1) * p * d,
                    2 * n + p * d < 2 * (s * p * d),
                    d > 0,
                    p > 0,
            ;
            assert(q < s) by (nonlinear_arith)
                requires
                    q * dk <= n,
                    2 * n + dk < 2 * (s * dk),
                    dk > 0,
            ;
            let h = half_even(n, dk);
            if q + 1 == s {
                assert(2 * (n - q * dk) < dk) by (nonlinear_arith)
                    requires
                        2 * n + dk < 2 * (s * dk),
                        q + 1 == s,
                ;
                lemma_half_even_is(n, dk, q, false);
            } else {
                lemma_half_even_is(
                    n,
                    dk,
                    q,
                    2 * (n - q * dk) > dk || (2 * (n - q * dk) == dk && q % 2 == 1),
                );
            }
            assert(h < s);
            assert(h * p < s * p) by (nonlinear_arith)
                requires
                    h < s,
                    p > 0,
            ;
        }
    }
}

/// Reads `half_even` off a quotient and a comparison of the remainder with one half.
pub proof fn lemma_half_even_is(n: nat, d: nat, q: nat, up: bool)
    requires
        d > 0,
        q * d <= n < (q + 1) * d,
        up <==> (2 * (n - q * d) > d || (2 * (n - q * d) == d && q % 2 == 1)),
    ensures
        half_even(n, d) == (if up { q + 1 } else { q }),
{
    assert(n - q * d < d) by (nonlinear_arith)
        requires
            n < (q + 1) * d,
    ;
    assert(q * d == d * q) by (nonlinear_arith);
    lemma_fundamental_div_mod_converse(n as int, d as int, q as int, n - q * d);
}

/// Rounding does not change when numerator and denominator are scaled together.
pub proof fn lemma_half_even_scales(n: nat, d: nat, c: nat)
    requires
        d > 0,
        c > 0,
    ensures
        half_even(n * c, d * c) == half_even(n, d),
{
    let q = n / d;
    let r = n % d;
    lemma_fundamental_div_mod(n as int, d as int);
    assert(d * c > 0) by (nonlinear_arith)
        requires
            d > 0,
            c > 0,
    ;
    assert(n * c == (d * c) * q + r * c && 0 <= r * c < d * c) by (nonlinear_arith)
        requires
            n == d * q + r,
            0 <= r < d,
            c > 0,
    ;
    lemma_fundamental_div_mod_converse(
        (n * c) as int,
        (d * c) as int,
        q as int,
        (r * c) as int,
    );
    assert(2 * r < d <==> 2 * (r * c) < d * c) by (nonlinear_arith)
        requires
            c > 0,
    ;
    assert(2 * r == d <==> 2 * (r * c) == d * c) by (nonlinear_arith)
        requires
            c > 0,
    ;
}

/// An integer is its own rounding.
pub proof fn lemma_half_even_exact(n: nat, d: nat)
    requires
        d > 0,
    ensures
        half_even(n * d, d) == n,
{
    assert((n + 1) * d == n * d + d) by (nonlinear_arith);
    lemma_half_even_is(n * d, d, n, false);
}

/// One rounding step: `n / d` lies in `[m, m + 1)` times `a / b`, and the low bits of `m`
/// (those below `p`) are rounded away.
proof fn lemma_round_step(
    n: nat,
    d: nat,
    dk: nat,
    a: nat,
    b: nat,
    m: nat,
    sticky: bool,
    p: nat,
    h: nat,
    q: nat,
    r: nat,
    up: bool,
)
    requires
        d > 0,
        a > 0,
        b > 0,
        h > 0,
        p == 2 * h,
        dk > 0,
        dk * b == a * d * p,
        m == q * p + r,
        r < p,
        m * (a * d) <= n * b < (m + 1) * (a * d),
        sticky <==> n * b != m * (a * d),
        up <==> (r > h || (r == h && (sticky || q % 2 == 1))),
    ensures
        half_even(n, dk) == (if up { q + 1 } else { q }),
{
    let unit = a * d;
    let e = n * b - m * unit;
    assert(unit > 0) by (nonlinear_arith)
        requires
            a > 0,
            d > 0,
            unit == a * d,
    ;
    assert(0 <= e < unit) by (nonlinear_arith)
        requires
            m * unit <= n * b < (m + 1) * unit,
            e == n * b - m * unit,
    ;
    assert(q * dk * b == q * p * unit) by (nonlinear_arith)
        requires
            dk * b == unit * p,
    ;
    assert(n * b - q * dk * b == r * unit + e) by (nonlinear_arith)
        requires
            q * dk * b == q * p * unit,
            e == n * b - m * unit,
            m == q * p + r,
    ;
    let rest = n - q * dk;
    assert(rest * b == r * unit + e) by (nonlinear_arith)
        requires
            n * b - q * dk * b == r * unit + e,
            rest == n - q * dk,
    ;
    assert(rest >= 0) by (nonlinear_arith)
        requires
            rest * b == r * unit + e,
            r >= 0,
            unit > 0,
            e >= 0,
            b > 0,
    ;
    assert(rest < dk) by (nonlinear_arith)
        requires
            rest * b == r * unit + e,
            r + 1 <= p,
            e < unit,
            unit > 0,
            dk * b == unit * p,
            b > 0,
    ;
    assert(dk * b == 2 * h * unit) by (nonlinear_arith)
        requires
            dk * b == unit * p,
            p == 2 * h,
    ;
    let gap = 2 * rest - dk;
    assert(gap * b == 2 * ((r - h) * unit + e)) by (nonlinear_arith)
        requires
            rest * b == r * unit + e,
            dk * b == 2 * h * unit,
            gap == 2 * rest - dk,
    ;
    if r > h {
        assert(gap > 0) by (nonlinear_arith)
            requires
                gap * b == 2 * ((r - h) * unit + e),
                r - h >= 1,
                unit > 0,
                e >= 0,
                b > 0,
        ;
    } else if r < h {
        assert(gap < 0) by (nonlinear_arith)
            requires
                gap * b == 2 * ((r - h) * unit + e),
                r - h <= -1,
                e < unit,
                unit > 0,
                b > 0,
        ;
    } else {
        assert(gap * b == 2 * e) by (nonlinear_arith)
            requires
                gap * b == 2 * ((r - h) * unit + e),
                r == h,
        ;
        if sticky {
            assert(gap > 0) by (nonlinear_arith)
                requires
                    gap * b == 2 * e,
                    e > 0,
                    b > 0,
            ;
        } else {
            assert(gap == 0) by (nonlinear_arith)
                requires
                    gap * b == 2 * e,
                    e == 0,
                    b > 0,
            ;
        }
    }
    assert((q + 1) * dk == q * dk + dk) by (nonlinear_arith);
    lemma_half_even_is(n, dk, q, up);
}

/// `j` where it is positive, else zero.
pub open spec fn above(j: int) -> nat {
    if j > 0 {
        j as nat
    } else {
        0
    }
}

/// `n / d` lies in `[m, m + 1)` times two to the power `j`, and on the lower end exactly
/// when `sticky` is not set.
pub open spec fn brackets(n: nat, d: nat, m: nat, sticky: bool, j: int) -> bool {
    let unit = pow2(above(j)) * d;
    let scaled_up = n * pow2(above(-j));
    &&& m * unit <= scaled_up < (m + 1) * unit
    &&& sticky <==> scaled_up != m * unit
}

/// Two to the power `e`.
pub fn pow2_u128(e: u32) -> (r: u128)
    requires
        e < 128,
    ensures
        r == pow2(e as nat),
{
    let mut r: u128 = 1;
    let mut i: u32 = 0;
    proof {
        lemma_pow2_127();
    }
    while i < e
        invariant
            i <= e < 128,
            r == pow2(i as nat),
            pow2(127) == 0x8000_0000_0000_0000_0000_0000_0000_0000,
        decreases e - i,
    {
        proof {
            lemma_pow2_weak(i as nat + 1, 127);
            lemma_pow2_unfold(i as nat + 1);
        }
        r = 2 * r;
        i = i + 1;
    }
    r
}

pub proof fn lemma_pow2_127()
    ensures
        pow2(0) == 1,
        pow2(1) == 2,
        pow2(52) == 0x10_0000_0000_0000,
        pow2(53) == 0x20_0000_0000_0000,
        pow2(54) == 0x40_0000_0000_0000,
        pow2(127) == 0x8000_0000_0000_0000_0000_0000_0000_0000,
{
    vstd::arithmetic::power2::lemma2_to64();
    vstd::arithmetic::power2::lemma2_to64_rest();
    lemma_pow2_adds(64, 63);
}

/// The number of bits of `m` up to its highest set one.
pub fn bit_length(m: u128) -> (len: u32)
    requires
        0 < m,
    ensures
        0 < len <= 128,
        pow2((len - 1) as nat) <= m < pow2(len as nat),
{
    let mut rest: u128 = m;
    let mut len: u32 = 0;
    proof {
        lemma_pow2_127();
    }
    while rest > 0
        invariant
            0 < m,
            len <= 128,
            rest * pow2(len as nat) <= m < (rest + 1) * pow2(len as nat),
            rest == 0 ==> len > 0 && pow2((len - 1) as nat) <= m,
        decreases rest,
    {
        let ghost before = rest;
        proof {
            lemma_pow2_unfold(len as nat + 1);
            lemma_pow2_pos(len as nat);
            if len == 128 {
                lemma_pow2_127();
                lemma_pow2_unfold(128);
                assert(rest * pow2(128) >= pow2(128)) by (nonlinear_arith)
                    requires
                        rest >= 1,
                ;
            }
        }
        rest = rest / 2;
        proof {
            let p = pow2(len as nat);
            assert(rest * (2 * p) <= m < (rest + 1) * (2 * p)) by (nonlinear_arith)
                requires
                    before * p <= m < (before + 1) * p,
                    2 * rest <= before < 2 * rest + 2,
                    p > 0,
            ;
            if rest == 0 {
                assert(before * p == p) by (nonlinear_arith)
                    requires
                        before == 1,
                ;
            }
        }
        len = len + 1;
    }
    assert((rest + 1) * pow2(len as nat) == pow2(len as nat)) by (nonlinear_arith)
        requires
            rest == 0,
    ;
    len
}

/// Rounds a bracketed number to 53 significant bits. The result is a significand and an
/// exponent, normalised: the exponent is zero or the significand has exactly 53 bits.
pub fn round_scaled(m: u128, sticky: bool, j: i32, Ghost(n): Ghost<nat>, Ghost(d): Ghost<nat>) -> (r:
    (u64, u32))
    requires
        0 < m < pow2(127),
        d > 0,
        -8000 <= j <= 8000,
        brackets(n, d, m as nat, sticky, j as int),
        sticky ==> m >= pow2(54),
    ensures
        r.0 * pow2(r.1 as nat) == nearest(n, d),
        r.0 < pow2(53),
        r.1 > 0 ==> r.0 >= pow2(52),
        r.1 <= 8100,
{
    let len = bit_length(m);
    proof {
        lemma_pow2_127();
        if len > 127 {
            lemma_pow2_weak(127, (len - 1) as nat);
        }
        if sticky && len <= 54 {
            lemma_pow2_weak(len as nat, 54);
        }
    }
    let fitted: i32 = len as i32 + j - 53;
    let k: i32 = if fitted > 0 { fitted } else { 0 };
    let drop: i32 = k - j;
    let ghost unit = pow2(above(j as int)) * d;
    let ghost low = pow2(above(-j as int));
    let ghost dk = d * pow2(k as nat);
    proof {
        lemma_pow2_pos(above(j as int));
        lemma_pow2_pos(above(-j as int));
        lemma_pow2_pos(k as nat);
        assert(unit > 0 && dk > 0) by (nonlinear_arith)
            requires
                unit == pow2(above(j as int)) * d,
                dk == d * pow2(k as nat),
                pow2(above(j as int)) > 0,
                pow2(k as nat) > 0,
                d > 0,
        ;
        lemma_bracket_spacing(n, d, m as nat, sticky, j as int, len as nat, k as nat);
        lemma_spacing_is(n, d, k as nat);
    }
    let quotient: u64 = if drop <= 0 {
        let lift = pow2_u128((-drop) as u32);
        proof {
            let up = pow2((-drop) as nat);
            lemma_pow2_pos((-drop) as nat);
            lemma_pow2_adds(len as nat, (-drop) as nat);
            lemma_pow2_weak((len - drop) as nat, 53);
            assert(m * up < pow2(len as nat) * up) by (nonlinear_arith)
                requires
                    m < pow2(len as nat),
                    up > 0,
            ;
            // The dropped part is empty, so the scaled number is an integer.
            lemma_pow2_adds(k as nat + above(-j as int), (-drop) as nat);
            lemma_pow2_adds(k as nat, above(-j as int));
            assert(n * low == m * up * dk * low) by (nonlinear_arith)
                requires
                    n * low == m * unit,
                    unit == pow2(above(j as int)) * d,
                    pow2(above(j as int)) == pow2(k as nat) * low * up,
                    dk == d * pow2(k as nat),
            ;
            assert(n == m * up * dk) by (nonlinear_arith)
                requires
                    n * low == m * up * dk * low,
                    low > 0,
            ;
            let whole = (m * up) as nat;
            assert((whole + 1) * dk == whole * dk + dk) by (nonlinear_arith);
            lemma_half_even_is(n, dk, whole, false);
            if k > 0 {
                assert(len == 53 + drop);
                lemma_pow2_adds((len - 1) as nat, (-drop) as nat);
                assert(pow2((len - 1) as nat) * up <= m * up) by (nonlinear_arith)
                    requires
                        pow2((len - 1) as nat) <= m,
                        up > 0,
                ;
            }
        }
        (m * lift) as u64
    } else if drop >= 128 {
        proof {
            let h = pow2((drop - 1) as nat);
            lemma_pow2_unfold(drop as nat);
            lemma_pow2_weak(127, (drop - 1) as nat);
            lemma_denominators(d, j as int, k as nat, drop as nat);
            lemma_round_step(
                n,
                d,
                dk,
                pow2(above(j as int)),
                low,
                m as nat,
                sticky,
                2 * h,
                h,
                0,
                m as nat,
                false,
            );
        }
        0
    } else {
        let p = pow2_u128(drop as u32);
        let half = pow2_u128((drop - 1) as u32);
        proof {
            lemma_pow2_pos(drop as nat);
            lemma_pow2_pos((drop - 1) as nat);
        }
        let q = m / p;
        let rest = m % p;
        let up = rest > half || (rest == half && (sticky || q % 2 == 1));
        proof {
            lemma_pow2_unfold(drop as nat);
            lemma_denominators(d, j as int, k as nat, drop as nat);
            lemma_fundamental_div_mod(m as int, p as int);
            assert(q * p == p * q) by (nonlinear_arith);
            lemma_round_step(
                n,
                d,
                dk,
                pow2(above(j as int)),
                low,
                m as nat,
                sticky,
                p as nat,
                half as nat,
                q as nat,
                rest as nat,
                up,
            );
            if len > drop {
                lemma_pow2_adds((len - drop) as nat, drop as nat);
                lemma_pow2_weak((len - drop) as nat, 53);
                assert(q < pow2((len - drop) as nat)) by (nonlinear_arith)
                    requires
                        m < pow2((len - drop) as nat) * p,
                        q * p <= m,
                        p > 0,
                ;
            } else {
                lemma_pow2_weak(len as nat, drop as nat);
                assert(q == 0) by (nonlinear_arith)
                    requires
                        m < p,
                        q * p <= m,
                        q >= 0,
                        p > 0,
                ;
            }
            if k > 0 {
                assert(len == 53 + drop);
                lemma_pow2_adds(52, drop as nat);
                assert(q >= pow2(52)) by (nonlinear_arith)
                    requires
                        pow2(52) * p <= m,
                        m == q * p + rest,
                        rest < p,
                        p > 0,
                ;
            }
        }
        if up {
            (q + 1) as u64
        } else {
            q as u64
        }
    };
    assert(quotient == half_even(n, dk));
    if quotient == 0x20_0000_0000_0000 {
        proof {
            lemma_pow2_unfold(k as nat + 1);
            assert(pow2(52) * (2 * pow2(k as nat)) == pow2(53) * pow2(k as nat)) by (nonlinear_arith)
                requires
                    pow2(53) == 2 * pow2(52),
            ;
        }
        (0x10_0000_0000_0000, (k + 1) as u32)
    } else {
        (quotient, k as u32)
    }
}

/// The exponent bookkeeping of a rounding step.
proof fn lemma_denominators(d: nat, j: int, k: nat, drop: nat)
    requires
        k - j == drop,
    ensures
        d * pow2(k) * pow2(above(-j)) == pow2(above(j)) * d * pow2(drop),
{
    lemma_pow2_adds(k, above(-j));
    lemma_pow2_adds(above(j), drop);
    assert(k + above(-j) == above(j) + drop);
    assert(d * pow2(k) * pow2(above(-j)) == pow2(above(j)) * d * pow2(drop)) by (nonlinear_arith)
        requires
            pow2(k) * pow2(above(-j)) == pow2(above(j)) * pow2(drop),
    ;
}

/// The bit length of a bracketing integer gives the spacing exponent.
proof fn lemma_bracket_spacing(n: nat, d: nat, m: nat, sticky: bool, j: int, len: nat, k: nat)
    requires
        d > 0,
        0 < len,
        brackets(n, d, m, sticky, j),
        pow2((len - 1) as nat) <= m < pow2(len),
        k == above(len + j - 53),
    ensures
        is_spacing(n, d, k),
{
    let unit = pow2(above(j)) * d;
    let low = pow2(above(-j));
    lemma_pow2_pos(above(j));
    lemma_pow2_pos(above(-j));
    // Upper end.
    lemma_pow2_adds(len, above(j));
    lemma_pow2_adds(53 + k, above(-j));
    lemma_pow2_weak(len + above(j), 53 + k + above(-j));
    assert(n * low < pow2(53 + k) * d * low) by (nonlinear_arith)
        requires
            n * low < (m + 1) * unit,
            m + 1 <= pow2(len),
            unit == pow2(above(j)) * d,
            pow2(len) * pow2(above(j)) <= pow2(53 + k) * low,
            d > 0,
            pow2(above(j)) > 0,
    ;
    assert(n < pow2(53 + k) * d) by (nonlinear_arith)
        requires
            n * low < pow2(53 + k) * d * low,
            low > 0,
    ;
    if k > 0 {
        lemma_pow2_adds((len - 1) as nat, above(j));
        lemma_pow2_adds((52 + k) as nat, above(-j));
        assert((len - 1) + above(j) == 52 + k + above(-j));
        assert(pow2((52 + k) as nat) * d * low <= n * low) by (nonlinear_arith)
            requires
                m * unit <= n * low,
                pow2((len - 1) as nat) <= m,
                unit == pow2(above(j)) * d,
                pow2((len - 1) as nat) * pow2(above(j)) == pow2((52 + k) as nat) * low,
                d > 0,
                pow2(above(j)) > 0,
        ;
        assert(pow2((52 + k) as nat) * d <= n) by (nonlinear_arith)
            requires
                pow2((52 + k) as nat) * d * low <= n * low,
                low > 0,
        ;
    }
}

} // verus!
