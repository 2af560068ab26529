//! Binary64 (IEEE 754 double) rounding of fractions, done exactly with
//! integers: the value that `as f64` gives for an integer and that `/` gives
//! for two doubles, and how `{:.2}` prints it.
use vstd::prelude::*;

verus! {

/// `2^e`.
pub open spec fn two_pow(e: nat) -> nat
    decreases e,
{
    if e == 0 {
        1
    } else {
        2 * two_pow((e - 1) as nat)
    }
}

/// `n / d` rounded to the nearest integer, ties to even.
pub open spec fn rne(n: nat, d: nat) -> nat
    recommends
        d > 0,
{
    let q = n / d;
    let r = n % d;
    if 2 * r > d || (2 * r == d && q % 2 == 1) {
        q + 1
    } else {
        q
    }
}

/// The binary exponent of `n / d` (for `n, d > 0`): the `e` with
/// `2^e <= n / d < 2^(e + 1)`.
pub open spec fn flog2(n: nat, d: nat) -> int
    decreases (if n > 0 && d > 0 && n >= 2 * d {
        n - d
    } else if n > 0 && d > 0 && n < d {
        d - n
    } else {
        0
    }),
{
    if n == 0 || d == 0 {
        0
    } else if n >= 2 * d {
        1 + flog2(n, 2 * d)
    } else if n < d {
        flog2(2 * n, d) - 1
    } else {
        0
    }
}

/// The binary64 value nearest to `n / d` (for `n, d > 0` whose quotient
/// lies in the normal range), ties to an even significand, as a 53-bit
/// significand `m` and an exponent `k`: the value is `m * 2^k`.
pub open spec fn round64(n: nat, d: nat) -> (nat, int) {
    let e = flog2(n, d);
    if e <= 52 {
        (rne(n * two_pow((52 - e) as nat), d), e - 52)
    } else {
        (rne(n, d * two_pow((e - 52) as nat)), e - 52)
    }
}

/// The numerator of `m * 2^k` over `frac_den(k)`.
pub open spec fn frac_num(m: nat, k: int) -> nat {
    if k >= 0 {
        m * two_pow(k as nat)
    } else {
        m
    }
}

/// The denominator of `m * 2^k`: one, or `2^(-k)`.
pub open spec fn frac_den(k: int) -> nat {
    if k >= 0 {
        1
    } else {
        two_pow((-k) as nat)
    }
}

/// The binary64 quotient `x / y` of two binary64 values `x = xm * 2^xk`
/// and `y = ym * 2^yk`.
pub open spec fn div64(xm: nat, xk: int, ym: nat, yk: int) -> (nat, int) {
    let t = xk - yk;
    if t >= 0 {
        round64(xm * two_pow(t as nat), ym)
    } else {
        round64(xm, ym * two_pow((-t) as nat))
    }
}

/// `s as f64 / c as f64` printed with `{:.2}`, in hundredths: the exact
/// value of the double rounded to hundredths, ties to even. Zero where `s`
/// is zero (and, as there is no quotient, where `c` is zero).
pub open spec fn f64_div_hundredths(s: nat, c: nat) -> nat {
    if s == 0 || c == 0 {
        0
    } else {
        let x = round64(s, 1);
        let y = round64(c, 1);
        let q = div64(x.0, x.1, y.0, y.1);
        rne(100 * frac_num(q.0, q.1), frac_den(q.1))
    }
}

// ---- facts about powers of two

proof fn lemma_two_pow_pos(e: nat)
    ensures
        two_pow(e) >= 1,
    decreases e,
{
    if e > 0 {
        lemma_two_pow_pos((e - 1) as nat);
    }
}

proof fn lemma_two_pow_add(a: nat, b: nat)
    ensures
        two_pow(a + b) == two_pow(a) * two_pow(b),
    decreases b,
{
    if b > 0 {
        let b1 = (b - 1) as nat;
        lemma_two_pow_add(a, b1);
        assert(two_pow(b) == 2 * two_pow(b1));
        assert(two_pow(a + b) == 2 * two_pow(a + b1));
        let x = two_pow(a);
        let y = two_pow(b1);
        assert(x * (2 * y) == 2 * (x * y)) by (nonlinear_arith);
        assert(two_pow(a) * two_pow(b) == x * (2 * y));
        assert(two_pow(a + b) == 2 * (x * y));
    } else {
        assert(two_pow(0) == 1);
        assert(a + b == a);
        assert(two_pow(a) * 1 == two_pow(a));
    }
}

proof fn lemma_two_pow_mono(a: nat, b: nat)
    requires
        a <= b,
    ensures
        two_pow(a) <= two_pow(b),
    decreases b,
{
    if a < b {
        lemma_two_pow_mono(a, (b - 1) as nat);
        lemma_two_pow_pos((b - 1) as nat);
    }
}

// ---- facts about rne

/// Rounding a fraction depends only on its value.
proof fn lemma_rne_ratio(a: nat, b: nat, a2: nat, b2: nat)
    requires
        b > 0,
        b2 > 0,
        a * b2 == a2 * b,
    ensures
        rne(a, b) == rne(a2, b2),
{
    let q = a / b;
    let r = a % b;
    assert(a == q * b + r && 0 <= r < b) by (nonlinear_arith)
        requires q == a / b, r == a % b, b > 0;
    let r2: int = a2 - q * b2;
    assert(r2 * b == r * b2) by (nonlinear_arith)
        requires a == q * b + r, a * b2 == a2 * b, r2 == a2 - q * b2;
    assert(0 <= r2 < b2) by (nonlinear_arith)
        requires r2 * b == r * b2, 0 <= r < b, b > 0, b2 > 0;
    assert(a2 / b2 == q && a2 % b2 == r2) by (nonlinear_arith)
        requires a2 == q * b2 + r2, 0 <= r2 < b2, b2 > 0;
    assert((2 * r > b) == (2 * r2 > b2)) by (nonlinear_arith)
        requires r2 * b == r * b2, b > 0, b2 > 0;
    assert((2 * r == b) == (2 * r2 == b2)) by (nonlinear_arith)
        requires r2 * b == r * b2, b > 0, b2 > 0;
}

/// A fraction between `m` and `2m` rounds to between `m` and `2m`.
proof fn lemma_rne_between(a: nat, d: nat, m: nat)
    requires
        d > 0,
        d * m <= a < d * (2 * m),
    ensures
        m <= rne(a, d) <= 2 * m,
{
    let q = a / d;
    assert(d * q <= a < d * q + d) by (nonlinear_arith)
        requires q == a / d, d > 0;
    assert(m <= q < 2 * m) by (nonlinear_arith)
        requires d * q <= a < d * q + d, d * m <= a < d * (2 * m), d > 0;
}

// ---- facts about flog2

/// `flog2` finds the binary exponent.
proof fn lemma_flog2_bounds(n: nat, d: nat)
    requires
        n > 0,
        d > 0,
    ensures
        n >= d ==> flog2(n, d) >= 0,
        n < d ==> flog2(n, d) < 0,
        flog2(n, d) >= 0 ==> d * two_pow(flog2(n, d) as nat) <= n < d * two_pow((flog2(n, d) + 1) as nat),
        flog2(n, d) < 0 ==> d <= n * two_pow((-flog2(n, d)) as nat) < 2 * d,
    decreases (if n >= 2 * d {
        n - d
    } else if n < d {
        d - n
    } else {
        0
    }),
{
    let e = flog2(n, d);
    if n >= 2 * d {
        lemma_flog2_bounds(n, 2 * d);
        let e1 = flog2(n, 2 * d);
        assert(e == 1 + e1);
        assert(two_pow((e1 + 1) as nat) == 2 * two_pow(e1 as nat));
        assert(two_pow((e1 + 2) as nat) == 2 * two_pow((e1 + 1) as nat));
        let p = two_pow(e1 as nat);
        assert(2 * d * p == d * (2 * p)) by (nonlinear_arith);
        assert(2 * d * (2 * p) == d * (2 * (2 * p))) by (nonlinear_arith);
    } else if n < d {
        lemma_flog2_bounds(2 * n, d);
        let e1 = flog2(2 * n, d);
        assert(e == e1 - 1);
        if 2 * n >= d {
            assert(e1 == 0) by {
                if e1 >= 1 {
                    lemma_two_pow_mono(1, e1 as nat);
                    assert(two_pow(1) == 2);
                    assert(d * two_pow(e1 as nat) >= d * 2) by (nonlinear_arith)
                        requires two_pow(e1 as nat) >= 2, d > 0;
                }
            }
            assert(two_pow(1) == 2);
        } else {
            let p = two_pow((-e1) as nat);
            assert(two_pow((-e) as nat) == 2 * p);
            assert(n * (2 * p) == 2 * n * p) by (nonlinear_arith);
        }
    } else {
        assert(two_pow(0) == 1);
        assert(two_pow(1) == 2);
    }
}

/// A quotient between one half and two has exponent -1, 0 or 1.
proof fn lemma_flog2_window(n: nat, d: nat)
    requires
        n > 0,
        d > 0,
    ensures
        n <= 2 * d ==> flog2(n, d) <= 1,
        2 * n >= d ==> flog2(n, d) >= -1,
        n <= 0x1_0000_0000_0000_0000 && d >= 1 ==> flog2(n, d) <= 64,
{
    lemma_flog2_bounds(n, d);
    let e = flog2(n, d);
    lemma_two_pow_facts();
    if e >= 2 {
        lemma_two_pow_mono(2, e as nat);
        assert(two_pow(2) == 4) by {
            reveal_with_fuel(two_pow, 3);
        }
        assert(d * two_pow(e as nat) >= 4 * d) by (nonlinear_arith)
            requires two_pow(e as nat) >= 4, d > 0;
    }
    if e >= 65 {
        lemma_two_pow_mono(65, e as nat);
        assert(two_pow(65) == 2 * two_pow(64));
        assert(d * two_pow(e as nat) >= two_pow(65)) by (nonlinear_arith)
            requires two_pow(e as nat) >= two_pow(65), d >= 1;
    }
    if e <= -2 {
        lemma_two_pow_mono(2, (-e) as nat);
        assert(two_pow(2) == 4) by {
            reveal_with_fuel(two_pow, 3);
        }
        assert(n * two_pow((-e) as nat) >= 4 * n) by (nonlinear_arith)
            requires two_pow((-e) as nat) >= 4, n > 0;
    }
}

/// Scaling both sides keeps the exponent.
proof fn lemma_flog2_scale(n: nat, d: nat, c: nat)
    requires
        n > 0,
        d > 0,
        c > 0,
    ensures
        flog2(n * c, d * c) == flog2(n, d),
    decreases (if n >= 2 * d {
        n - d
    } else if n < d {
        d - n
    } else {
        0
    }),
{
    assert(n * c > 0 && d * c > 0) by (nonlinear_arith)
        requires n > 0, d > 0, c > 0;
    assert((n * c >= 2 * (d * c)) == (n >= 2 * d)) by (nonlinear_arith)
        requires c > 0;
    assert((n * c < d * c) == (n < d)) by (nonlinear_arith)
        requires c > 0;
    if n >= 2 * d {
        lemma_flog2_scale(n, 2 * d, c);
        assert(2 * d * c == 2 * (d * c)) by (nonlinear_arith);
    } else if n < d {
        lemma_flog2_scale(2 * n, d, c);
        assert(2 * n * c == 2 * (n * c)) by (nonlinear_arith);
    }
}

proof fn lemma_flog2_double_num(n: nat, d: nat)
    requires
        n > 0,
        d > 0,
    ensures
        flog2(2 * n, d) == flog2(n, d) + 1,
{
    if n >= d {
        lemma_flog2_scale(n, d, 2);
        assert(n * 2 == 2 * n && d * 2 == 2 * d);
    }
}

proof fn lemma_flog2_double_den(n: nat, d: nat)
    requires
        n > 0,
        d > 0,
    ensures
        flog2(n, 2 * d) == flog2(n, d) - 1,
{
    lemma_flog2_scale(n, d, 2);
    lemma_flog2_double_num(n, 2 * d);
    assert(n * 2 == 2 * n && d * 2 == 2 * d);
}

proof fn lemma_flog2_shift_num(n: nat, d: nat, t: nat)
    requires
        n > 0,
        d > 0,
    ensures
        flog2(n * two_pow(t), d) == flog2(n, d) + t,
    decreases t,
{
    if t > 0 {
        lemma_flog2_shift_num(n, d, (t - 1) as nat);
        lemma_two_pow_pos((t - 1) as nat);
        let p = two_pow((t - 1) as nat);
        assert(n * p > 0) by (nonlinear_arith)
            requires n > 0, p >= 1;
        lemma_flog2_double_num(n * p, d);
        assert(two_pow(t) == 2 * p);
        assert(n * two_pow(t) == 2 * (n * p)) by (nonlinear_arith)
            requires two_pow(t) == 2 * p;
    } else {
        assert(n * two_pow(0) == n * 1);
    }
}

proof fn lemma_flog2_shift_den(n: nat, d: nat, t: nat)
    requires
        n > 0,
        d > 0,
    ensures
        flog2(n, d * two_pow(t)) == flog2(n, d) - t,
    decreases t,
{
    if t > 0 {
        lemma_flog2_shift_den(n, d, (t - 1) as nat);
        lemma_two_pow_pos((t - 1) as nat);
        let p = two_pow((t - 1) as nat);
        assert(d * p > 0) by (nonlinear_arith)
            requires d > 0, p >= 1;
        lemma_flog2_double_den(n, d * p);
        assert(two_pow(t) == 2 * p);
        assert(d * two_pow(t) == 2 * (d * p)) by (nonlinear_arith)
            requires two_pow(t) == 2 * p;
    } else {
        assert(d * two_pow(0) == d * 1);
    }
}

// ---- facts about round64

/// Where `n2 / d2 == (n / d) * 2^s`, the rounded values differ by `2^s`
/// too: the significands agree and the exponents differ by `s`.
proof fn lemma_round64_scaled(n: nat, d: nat, n2: nat, d2: nat, s: int)
    requires
        n > 0,
        d > 0,
        n2 > 0,
        d2 > 0,
        flog2(n2, d2) == flog2(n, d) + s,
        s >= 0 ==> n2 * d == n * two_pow(s as nat) * d2,
        s < 0 ==> n2 * d * two_pow((-s) as nat) == n * d2,
    ensures
        round64(n2, d2).0 == round64(n, d).0,
        round64(n2, d2).1 == round64(n, d).1 + s,
{
    let e = flog2(n, d);
    let e2 = flog2(n2, d2);
    // Both significands round (value / 2^(e-52)), written as fractions.
    // n/d * 2^(52-e) == n2/d2 * 2^(52-e2).
    let (a, b): (nat, nat) = if e <= 52 {
        (n * two_pow((52 - e) as nat), d)
    } else {
        (n, d * two_pow((e - 52) as nat))
    };
    let (a2, b2): (nat, nat) = if e2 <= 52 {
        (n2 * two_pow((52 - e2) as nat), d2)
    } else {
        (n2, d2 * two_pow((e2 - 52) as nat))
    };
    lemma_two_pow_pos((52 - e) as nat);
    lemma_two_pow_pos((e - 52) as nat);
    lemma_two_pow_pos((52 - e2) as nat);
    lemma_two_pow_pos((e2 - 52) as nat);
    assert(b > 0) by (nonlinear_arith)
        requires e > 52 ==> b == d * two_pow((e - 52) as nat), e <= 52 ==> b == d, d > 0, two_pow((e - 52) as nat) >= 1;
    assert(b2 > 0) by (nonlinear_arith)
        requires e2 > 52 ==> b2 == d2 * two_pow((e2 - 52) as nat), e2 <= 52 ==> b2 == d2, d2 > 0,
            two_pow((e2 - 52) as nat) >= 1;
    // a / b == (n / d) * 2^(52 - e) and a2 / b2 == (n2 / d2) * 2^(52 - e2),
    // and (n2 / d2) = (n / d) * 2^s with e2 = e + s: so a * b2 == a2 * b.
    // Write P = 2^|52 - e| and so on, and compare cross products.
    let u = 52 - e;
    let u2 = 52 - e2;
    assert(u == u2 + s);
    // a * d == n * 2^u * b where 2^u is taken as a fraction.
    assert(a * b2 == a2 * b) by {
        lemma_cross(n, d, n2, d2, s, u, u2, a, b, a2, b2);
    }
    lemma_rne_ratio(a, b, a2, b2);
}

/// The cross products of the scaled fractions agree.
proof fn lemma_cross(n: nat, d: nat, n2: nat, d2: nat, s: int, u: int, u2: int, a: nat, b: nat, a2: nat, b2: nat)
    requires
        d > 0,
        d2 > 0,
        u == u2 + s,
        s >= 0 ==> n2 * d == n * two_pow(s as nat) * d2,
        s < 0 ==> n2 * d * two_pow((-s) as nat) == n * d2,
        u >= 0 ==> a == n * two_pow(u as nat) && b == d,
        u < 0 ==> a == n && b == d * two_pow((-u) as nat),
        u2 >= 0 ==> a2 == n2 * two_pow(u2 as nat) && b2 == d2,
        u2 < 0 ==> a2 == n2 && b2 == d2 * two_pow((-u2) as nat),
    ensures
        a * b2 == a2 * b,
{
    // Split each exponent into its positive and negative parts, multiply
    // both cross products by 2^ns, and compare.
    let pu = if u >= 0 { u } else { 0 };
    let nu = if u < 0 { -u } else { 0 };
    let pu2 = if u2 >= 0 { u2 } else { 0 };
    let nu2 = if u2 < 0 { -u2 } else { 0 };
    let ps = if s >= 0 { s } else { 0 };
    let ns = if s < 0 { -s } else { 0 };
    assert(u == pu - nu && u2 == pu2 - nu2 && s == ps - ns);
    // a == n * 2^pu, b == d * 2^nu; a2 == n2 * 2^pu2, b2 == d2 * 2^nu2.
    assert(two_pow(0) == 1);
    assert(a == n * two_pow(pu as nat) && b == d * two_pow(nu as nat)) by {
        if u >= 0 {
            assert(d * two_pow(0) == d);
        } else {
            assert(n * two_pow(0) == n);
        }
    }
    assert(a2 == n2 * two_pow(pu2 as nat) && b2 == d2 * two_pow(nu2 as nat)) by {
        if u2 >= 0 {
            assert(d2 * two_pow(0) == d2);
        } else {
            assert(n2 * two_pow(0) == n2);
        }
    }
    // n2 * d * 2^ns == n * d2 * 2^ps.
    assert(n2 * d * two_pow(ns as nat) == n * d2 * two_pow(ps as nat)) by {
        if s >= 0 {
            assert(n2 * d * two_pow(0) == n2 * d);
            let q = two_pow(s as nat);
            assert(q == two_pow(ps as nat));
            assert(n * q * d2 == n * d2 * q) by (nonlinear_arith);
        } else {
            assert(n * d2 * two_pow(0) == n * d2);
        }
    }
    // pu + nu2 + ns == pu2 + nu + ps (from u == u2 + s).
    assert(pu + nu2 + ns == pu2 + nu + ps);
    let x = (pu + nu2) as nat;
    let y = (pu2 + nu) as nat;
    lemma_two_pow_add(x, ns as nat);
    lemma_two_pow_add(y, ps as nat);
    lemma_two_pow_add(pu as nat, nu2 as nat);
    lemma_two_pow_add(pu2 as nat, nu as nat);
    lemma_two_pow_pos(ns as nat);
    let tp = two_pow(pu as nat);
    let tn = two_pow(nu as nat);
    let tp2 = two_pow(pu2 as nat);
    let tn2 = two_pow(nu2 as nat);
    let tps = two_pow(ps as nat);
    let tns = two_pow(ns as nat);
    // a * b2 * tns == n * d2 * tp * tn2 * tns, a2 * b * tns == n2 * d * tns * tp2 * tn
    //   == n * d2 * tps * tp2 * tn.  And tp * tn2 * tns == tp2 * tn * tps.
    assert(tp * tn2 * tns == tp2 * tn * tps) by {
        assert(two_pow(x) == tp * tn2);
        assert(two_pow(y) == tp2 * tn);
        assert(x + ns == y + ps);
    }
    let nd2 = n * d2;
    assert(a * b2 == nd2 * (tp * tn2)) by (nonlinear_arith)
        requires a == n * tp, b2 == d2 * tn2, nd2 == n * d2;
    assert(a2 * b == (n2 * d) * (tp2 * tn)) by (nonlinear_arith)
        requires a2 == n2 * tp2, b == d * tn;
    let m = n2 * d;
    let w = tp2 * tn;
    let v = tp * tn2;
    assert(m * tns == nd2 * tps);
    assert(v * tns == w * tps);
    assert((a * b2) * tns == (nd2 * v) * tns);
    assert((nd2 * v) * tns == nd2 * (v * tns)) by (nonlinear_arith);
    assert((m * w) * tns == (m * tns) * w) by (nonlinear_arith);
    assert(nd2 * (w * tps) == (nd2 * tps) * w) by (nonlinear_arith);
    assert((a * b2) * tns == (a2 * b) * tns);
    assert(a * b2 == a2 * b) by (nonlinear_arith)
        requires (a * b2) * tns == (a2 * b) * tns, tns >= 1;
}

/// The significand lies between `2^52` and `2^53`.
proof fn lemma_round64_range(n: nat, d: nat)
    requires
        n > 0,
        d > 0,
    ensures
        two_pow(52) <= round64(n, d).0 <= two_pow(53),
{
    let e = flog2(n, d);
    lemma_flog2_bounds(n, d);
    let t52 = two_pow(52);
    assert(two_pow(53) == 2 * t52);
    if e <= 52 {
        let u = (52 - e) as nat;
        let a = n * two_pow(u);
        if e >= 0 {
            let pe = two_pow(e as nat);
            lemma_two_pow_add(e as nat, u);
            lemma_two_pow_pos(u);
            assert(e as nat + u == 52);
            assert(pe * two_pow(u) == t52);
            assert(two_pow((e + 1) as nat) == 2 * pe);
            assert(d * t52 <= a < d * (2 * t52)) by (nonlinear_arith)
                requires
                    d * pe <= n < d * (2 * pe),
                    a == n * two_pow(u),
                    pe * two_pow(u) == t52,
                    two_pow(u) >= 1;
        } else {
            let v = (-e) as nat;
            lemma_two_pow_add(v, 52);
            assert(u == v + 52);
            let pv = two_pow(v);
            let x = n * pv;
            assert(two_pow(u) == pv * t52);
            assert(a == x * t52) by (nonlinear_arith)
                requires a == n * two_pow(u), two_pow(u) == pv * t52, x == n * pv;
            lemma_two_pow_pos(52);
            assert(d * t52 <= a < d * (2 * t52)) by (nonlinear_arith)
                requires d <= x < 2 * d, a == x * t52, t52 > 0;
        }
        lemma_rne_between(a, d, t52);
    } else {
        let w = (e - 52) as nat;
        let b = d * two_pow(w);
        let pe = two_pow(e as nat);
        lemma_two_pow_add(w, 52);
        assert(pe == two_pow(w) * t52);
        assert(two_pow((e + 1) as nat) == 2 * pe);
        lemma_two_pow_pos(w);
        assert(b > 0) by (nonlinear_arith)
            requires b == d * two_pow(w), d > 0, two_pow(w) >= 1;
        assert(b * t52 <= n < b * (2 * t52)) by (nonlinear_arith)
            requires d * pe <= n < d * (2 * pe), b == d * two_pow(w), pe == two_pow(w) * t52;
        lemma_rne_between(n, b, t52);
    }
}

// ---- executable

/// `2^e`.
fn two_pow_exec(e: u32) -> (r: u128)
    requires
        e < 127,
    ensures
        r == two_pow(e as nat),
{
    let mut r: u128 = 1;
    let mut i: u32 = 0;
    while i < e
        invariant
            i <= e < 127,
            r == two_pow(i as nat),
        decreases e - i,
    {
        proof {
            lemma_two_pow_mono(i as nat, 126);
            lemma_two_pow_facts();
        }
        r = r * 2;
        i = i + 1;
    }
    r
}

proof fn lemma_two_pow_facts()
    ensures
        two_pow(126) < 0x8000_0000_0000_0000_0000_0000_0000_0000,
        two_pow(52) == 0x10_0000_0000_0000,
        two_pow(53) == 0x20_0000_0000_0000,
        two_pow(64) == 0x1_0000_0000_0000_0000,
        two_pow(65) == 2 * two_pow(64),
{
    reveal_with_fuel(two_pow, 9);
    assert(two_pow(4) == 16);
    assert(two_pow(8) == 256);
    lemma_two_pow_add(8, 8);
    assert(two_pow(16) == 0x1_0000);
    lemma_two_pow_add(16, 16);
    assert(two_pow(32) == 0x1_0000_0000);
    lemma_two_pow_add(32, 16);
    lemma_two_pow_add(48, 4);
    assert(two_pow(52) == 0x10_0000_0000_0000);
    assert(two_pow(53) == 2 * two_pow(52));
    lemma_two_pow_add(32, 32);
    assert(two_pow(64) == 0x1_0000_0000_0000_0000);
    assert(two_pow(65) == 2 * two_pow(64));
    lemma_two_pow_add(64, 52);
    lemma_two_pow_add(116, 8);
    lemma_two_pow_add(124, 2);
    assert(two_pow(2) == 4);
    assert(two_pow(126) == 0x4000_0000_0000_0000_0000_0000_0000_0000);
}

/// `n / d` rounded to the nearest integer, ties to even.
fn rne_exec(n: u128, d: u128) -> (r: u128)
    requires
        d > 0,
        d < 0x8000_0000_0000_0000_0000_0000_0000_0000,
    ensures
        r == rne(n as nat, d as nat),
{
    let q = n / d;
    let r = n % d;
    if 2 * r > d || (2 * r == d && q % 2 == 1) {
        assert(q < n || d == 1) by (nonlinear_arith)
            requires q == n / d, d > 0, r == n % d, 2 * r >= d, n >= 0;
        q + 1
    } else {
        q
    }
}

/// The binary exponent of `n / d`.
fn flog2_exec(n: u128, d: u128) -> (e: i64)
    requires
        0 < n <= 0x1_0000_0000_0000_0000,
        0 < d <= 0x1_0000_0000_0000_0000,
    ensures
        e == flog2(n as nat, d as nat),
        -65 <= e <= 65,
{
    let mut a: u128 = n;
    let mut b: u128 = d;
    let mut e: i64 = 0;
    proof {
        lemma_two_pow_facts();
        assert(two_pow(0) == 1);
        assert(d * two_pow(0) == d);
    }
    while a >= 2 * b
        invariant
            a == n,
            0 < n <= 0x1_0000_0000_0000_0000,
            0 < d,
            0 < b <= 0x1_0000_0000_0000_0000,
            0 <= e <= 64,
            b == d * two_pow(e as nat),
            two_pow(64) == 0x1_0000_0000_0000_0000,
            two_pow(65) == 2 * two_pow(64),
            flog2(n as nat, d as nat) == e + flog2(a as nat, b as nat),
        decreases a - b,
    {
        proof {
            assert(two_pow((e + 1) as nat) == 2 * two_pow(e as nat));
            assert(2 * b == d * two_pow((e + 1) as nat)) by (nonlinear_arith)
                requires b == d * two_pow(e as nat), two_pow((e + 1) as nat) == 2 * two_pow(e as nat);
            if e + 1 >= 65 {
                lemma_two_pow_mono(65, (e + 1) as nat);
                assert(d * two_pow((e + 1) as nat) >= two_pow(65)) by (nonlinear_arith)
                    requires d >= 1, two_pow((e + 1) as nat) >= two_pow(65);
            }
        }
        b = 2 * b;
        e = e + 1;
    }
    let ghost e1 = e;
    let ghost bb = b;
    proof {
        assert(n * two_pow(0) == n);
    }
    while a < b
        invariant
            b == bb,
            0 < a < 2 * b,
            0 < n,
            0 < b <= 0x1_0000_0000_0000_0000,
            0 <= e1 <= 64,
            e <= e1,
            e1 - e <= 64,
            a == n * two_pow((e1 - e) as nat),
            two_pow(64) == 0x1_0000_0000_0000_0000,
            flog2(n as nat, d as nat) == e + flog2(a as nat, b as nat),
        decreases 64 - (e1 - e),
    {
        proof {
            assert(two_pow((e1 - e + 1) as nat) == 2 * two_pow((e1 - e) as nat));
            assert(2 * a == n * two_pow((e1 - e + 1) as nat)) by (nonlinear_arith)
                requires a == n * two_pow((e1 - e) as nat), two_pow((e1 - e + 1) as nat) == 2 * two_pow((e1 - e) as nat);
            if e1 - e + 1 > 64 {
                lemma_two_pow_mono(64, (e1 - e) as nat);
                assert(n * two_pow((e1 - e) as nat) >= two_pow(64)) by (nonlinear_arith)
                    requires n >= 1, two_pow((e1 - e) as nat) >= two_pow(64);
            }
        }
        a = 2 * a;
        e = e - 1;
    }
    e
}

/// The binary64 value nearest to `n / d`, as significand and exponent.
fn round64_exec(n: u128, d: u128) -> (r: (u128, i64))
    requires
        0 < n <= 0x1_0000_0000_0000_0000,
        0 < d <= 0x1_0000_0000_0000_0000,
    ensures
        r.0 == round64(n as nat, d as nat).0,
        r.1 == round64(n as nat, d as nat).1,
        -117 <= r.1 <= 13,
        n >= d ==> r.1 >= -52,
        d == 1 ==> r.1 <= 12,
        n <= 2 * d ==> r.1 <= -51,
        2 * n >= d ==> r.1 >= -53,
        0x10_0000_0000_0000 <= r.0 <= 0x20_0000_0000_0000,
{
    let e: i64 = flog2_exec(n, d);
    proof {
        lemma_flog2_bounds(n as nat, d as nat);
        lemma_flog2_window(n as nat, d as nat);
        lemma_round64_range(n as nat, d as nat);
        lemma_two_pow_facts();
    }
    if e <= 52 {
        let u: u32 = (52 - e) as u32;
        let p: u128 = two_pow_exec(u);
        proof {
            // n * 2^u < d * 2^53 <= 2^117.
            lemma_two_pow_pos(u as nat);
            if e >= 0 {
                lemma_two_pow_add((e + 1) as nat, u as nat);
                assert((e + 1) as nat + u as nat == 53);
                let q = two_pow((e + 1) as nat);
                assert(q * p == two_pow(53));
                assert(n * p < d * two_pow(53)) by (nonlinear_arith)
                    requires n < d * q, q * p == two_pow(53), p >= 1;
            } else {
                let v = (-e) as nat;
                lemma_two_pow_add(v, 52);
                assert(u as nat == v + 52);
                let pv = two_pow(v);
                assert(p == pv * two_pow(52));
                assert(n * p < 2 * d * two_pow(52)) by (nonlinear_arith)
                    requires n * pv < 2 * d, p == pv * two_pow(52), two_pow(52) > 0;
            }
        }
        let a: u128 = n * p;
        let m: u128 = rne_exec(a, d);
        (m, e - 52)
    } else {
        let w: u32 = (e - 52) as u32;
        let p: u128 = two_pow_exec(w);
        proof {
            lemma_two_pow_add(w as nat, 52);
            lemma_two_pow_pos(w as nat);
            assert(d * p <= n) by (nonlinear_arith)
                requires d * two_pow(e as nat) <= n, two_pow(e as nat) == p * two_pow(52), two_pow(52) >= 1;
        }
        let b: u128 = d * p;
        assert(b > 0) by (nonlinear_arith)
            requires b == d * p, d > 0, p >= 1;
        let m: u128 = rne_exec(n, b);
        (m, e - 52)
    }
}

/// `s as f64 / c as f64` printed with `{:.2}`, in hundredths.
pub fn f64_div_hundredths_exec(s: u64, c: u64) -> (r: u128)
    ensures
        r == f64_div_hundredths(s as nat, c as nat),
{
    if s == 0 || c == 0 {
        return 0;
    }
    let x = round64_exec(s as u128, 1);
    let y = round64_exec(c as u128, 1);
    let (qm, qk0) = round64_exec(x.0, y.0);
    let t: i64 = x.1 - y.1;
    let k: i64 = qk0 + t;
    proof {
        lemma_quotient_scaled(x.0 as nat, y.0 as nat, t as int);
        lemma_two_pow_facts();
    }
    assert(-118 <= k <= 14);
    if k >= 0 {
        let p: u128 = two_pow_exec(k as u32);
        proof {
            lemma_two_pow_mono(k as nat, 14);
            assert(two_pow(14) == 0x4000) by {
                reveal_with_fuel(two_pow, 15);
            }
            assert(100 * qm * p <= 100 * 0x20_0000_0000_0000 * 0x4000) by (nonlinear_arith)
                requires qm <= 0x20_0000_0000_0000, p <= 0x4000;
            assert(100 * qm * p == 100 * (qm * p)) by (nonlinear_arith);
        }
        100 * qm * p
    } else {
        let p: u128 = two_pow_exec((-k) as u32);
        proof {
            lemma_two_pow_mono((-k) as nat, 126);
            lemma_two_pow_pos((-k) as nat);
        }
        rne_exec(100 * qm, p)
    }
}

/// The quotient of two doubles is the rounded quotient of their
/// significands, moved by the difference of their exponents.
proof fn lemma_quotient_scaled(xm: nat, ym: nat, t: int)
    requires
        xm > 0,
        ym > 0,
    ensures
        div64(xm, t, ym, 0).0 == round64(xm, ym).0,
        div64(xm, t, ym, 0).1 == round64(xm, ym).1 + t,
        forall|xk: int, yk: int| xk - yk == t ==> #[trigger] div64(xm, xk, ym, yk) == div64(xm, t, ym, 0),
{
    if t >= 0 {
        let p = two_pow(t as nat);
        lemma_two_pow_pos(t as nat);
        lemma_flog2_shift_num(xm, ym, t as nat);
        assert(xm * p > 0) by (nonlinear_arith)
            requires xm > 0, p >= 1;
        assert(xm * p * ym == xm * p * ym);
        lemma_round64_scaled(xm, ym, xm * p, ym, t);
    } else {
        let p = two_pow((-t) as nat);
        lemma_two_pow_pos((-t) as nat);
        lemma_flog2_shift_den(xm, ym, (-t) as nat);
        assert(ym * p > 0) by (nonlinear_arith)
            requires ym > 0, p >= 1;
        assert(xm * ym * p == xm * (ym * p)) by (nonlinear_arith);
        lemma_round64_scaled(xm, ym, xm, ym * p, t);
    }
}

} // verus!
