//! Exact note durations: fractions of a whole note in lowest terms, with the
//! fraction arithmetic done by `num_rational`.
use vstd::prelude::*;
use num_rational::Rational32;
use vstd::arithmetic::div_mod::{lemma_fundamental_div_mod, lemma_mod_multiples_basic};
use crate::text::{int_text, nat_text, push_int, push_nat};

verus! {

/// Greatest common divisor.
pub open spec fn gcd(a: nat, b: nat) -> nat
    decreases b,
{
    if b == 0 { a } else { gcd(b, a % b) }
}

pub open spec fn abs(x: int) -> nat {
    if x < 0 { (-x) as nat } else { x as nat }
}

pub open spec fn fits_i32(x: int) -> bool {
    i32::MIN <= x && x <= i32::MAX
}

/// `n/d` is in lowest terms with a positive denominator.
pub open spec fn lowest_terms(n: int, d: int) -> bool {
    d > 0 && gcd(abs(n), d as nat) == 1
}

/// `p/q` and `n/d` are the same fraction.
pub open spec fn same_value(p: int, q: int, n: int, d: int) -> bool {
    p * d == n * q
}

/// Where `Ratio::<i32>::new(n, d)` panics: a zero denominator, or a negative
/// one whose sign change after cancelling the common factor overflows.
pub open spec fn ratio_new_panics(n: int, d: int) -> bool {
    ||| d == 0
    ||| (d < 0 && n != 0 && n != d && {
        let g = gcd(abs(n), abs(d)) as int;
        n / g == i32::MIN || d / g == i32::MIN
    })
}

/// Where the cross-cancelled products that `Ratio<i32>` multiplication forms
/// for `a * b` leave the `i32` range (and so overflow).
pub open spec fn mul_overflows(a: (int, int), b: (int, int)) -> bool {
    let g_ad = gcd(abs(a.0), abs(b.1)) as int;
    let g_bc = gcd(abs(a.1), abs(b.0)) as int;
    !fits_i32((a.0 / g_ad) * (b.0 / g_bc)) || !fits_i32((a.1 / g_bc) * (b.1 / g_ad))
}

/// Least common multiple of two positive denominators.
pub open spec fn lcm(a: int, b: int) -> int {
    a * (b / gcd(abs(a), abs(b)) as int)
}

/// Where `Ratio<i32>` addition (`sign == 1`) or subtraction (`sign == -1`)
/// of `a` and `b` overflows: the numerators are brought to the least common
/// denominator first (or combined directly when the denominators agree).
pub open spec fn addsub_overflows(a: (int, int), b: (int, int), sign: int) -> bool {
    if a.1 == b.1 {
        !fits_i32(a.0 + sign * b.0)
    } else {
        let l = lcm(a.1, b.1);
        let x = a.0 * (l / a.1);
        let y = b.0 * (l / b.1);
        !fits_i32(l) || !fits_i32(x) || !fits_i32(y) || !fits_i32(x + sign * y)
    }
}

/// `num_rational::Ratio::<i32>::new`: the fraction `numer/denom` in lowest
/// terms with a positive denominator. The preconditions leave out the inputs
/// on which it panics.
#[verifier::external_body]
fn ratio_new(numer: i32, denom: i32) -> (r: (i32, i32))
    requires
        !ratio_new_panics(numer as int, denom as int),
    ensures
        lowest_terms(r.0 as int, r.1 as int),
        same_value(r.0 as int, r.1 as int, numer as int, denom as int),
{
    let q = Rational32::new(numer, denom);
    (*q.numer(), *q.denom())
}

/// `Mul` for `num_rational::Ratio<i32>` on fractions in lowest terms: their
/// product in lowest terms.
#[verifier::external_body]
fn ratio_mul(a: (i32, i32), b: (i32, i32)) -> (r: (i32, i32))
    requires
        lowest_terms(a.0 as int, a.1 as int),
        lowest_terms(b.0 as int, b.1 as int),
        !mul_overflows((a.0 as int, a.1 as int), (b.0 as int, b.1 as int)),
    ensures
        lowest_terms(r.0 as int, r.1 as int),
        same_value(r.0 as int, r.1 as int, a.0 * b.0, a.1 * b.1),
{
    let q = Rational32::new_raw(a.0, a.1) * Rational32::new_raw(b.0, b.1);
    (*q.numer(), *q.denom())
}

/// `Add` for `num_rational::Ratio<i32>` on fractions in lowest terms: their
/// sum in lowest terms.
#[verifier::external_body]
fn ratio_add(a: (i32, i32), b: (i32, i32)) -> (r: (i32, i32))
    requires
        lowest_terms(a.0 as int, a.1 as int),
        lowest_terms(b.0 as int, b.1 as int),
        !addsub_overflows((a.0 as int, a.1 as int), (b.0 as int, b.1 as int), 1),
    ensures
        lowest_terms(r.0 as int, r.1 as int),
        same_value(r.0 as int, r.1 as int, a.0 * b.1 + b.0 * a.1, a.1 * b.1),
{
    let q = Rational32::new_raw(a.0, a.1) + Rational32::new_raw(b.0, b.1);
    (*q.numer(), *q.denom())
}

/// `Sub` for `num_rational::Ratio<i32>` on fractions in lowest terms: their
/// difference in lowest terms.
#[verifier::external_body]
fn ratio_sub(a: (i32, i32), b: (i32, i32)) -> (r: (i32, i32))
    requires
        lowest_terms(a.0 as int, a.1 as int),
        lowest_terms(b.0 as int, b.1 as int),
        !addsub_overflows((a.0 as int, a.1 as int), (b.0 as int, b.1 as int), -1),
    ensures
        lowest_terms(r.0 as int, r.1 as int),
        same_value(r.0 as int, r.1 as int, a.0 * b.1 - b.0 * a.1, a.1 * b.1),
{
    let q = Rational32::new_raw(a.0, a.1) - Rational32::new_raw(b.0, b.1);
    (*q.numer(), *q.denom())
}

/// Exact musical duration: a fraction of a whole note in lowest terms
/// (1/4 is a quarter note, 1/6 a quarter-note triplet).
#[derive(Debug, Clone, Copy, PartialEq, Eq, Hash, Structural)]
pub struct Duration {
    numer: i32,
    denom: i32,
}

impl View for Duration {
    type V = (int, int);

    closed spec fn view(&self) -> (int, int) {
        (self.numer as int, self.denom as int)
    }
}

/// `n * m / d` rounded half away from zero, as an unsigned count: values
/// below zero give 0 and values beyond `u32::MAX` give `u32::MAX` (a
/// saturating float-to-integer cast).
pub open spec fn scaled_round(n: int, d: int, m: int) -> int {
    let p = n * m;
    if p <= 0 || d <= 0 { 0 } else {
        let v = (2 * p + d) / (2 * d);
        if v > u32::MAX { u32::MAX as int } else { v }
    }
}

/// `n * m / d` rounded toward zero, saturated to the `u32` range.
pub open spec fn scaled_trunc(n: int, d: int, m: int) -> int {
    let p = n * m;
    if p <= 0 || d <= 0 { 0 } else {
        let v = p / d;
        if v > u32::MAX { u32::MAX as int } else { v }
    }
}

impl Duration {
    #[verifier::type_invariant]
    spec fn inv(self) -> bool {
        lowest_terms(self.numer as int, self.denom as int)
    }

    /// The duration `numerator/denominator` of a whole note, in lowest terms.
    pub fn new(numerator: i32, denominator: i32) -> (r: Duration)
        requires
            !ratio_new_panics(numerator as int, denominator as int),
        ensures
            lowest_terms(r@.0, r@.1),
            same_value(r@.0, r@.1, numerator as int, denominator as int),
    {
        let (n, d) = ratio_new(numerator, denominator);
        Duration { numer: n, denom: d }
    }

    fn unit(denom: i32) -> (r: Duration)
        requires
            denom > 0,
        ensures
            r@ == (1int, denom as int),
    {
        assert(gcd(1, denom as nat) == 1) by {
            reveal_with_fuel(gcd, 3);
            let dn = denom as nat;
            assert(1nat % dn == if dn == 1 { 0nat } else { 1nat }) by (nonlinear_arith)
                requires
                    dn > 0,
            ;
            assert(dn % 1 == 0);
        }
        Duration { numer: 1, denom }
    }

    /// No time at all (0/1).
    pub fn zero() -> (r: Duration)
        ensures
            r@ == (0int, 1int),
    {
        assert(gcd(0, 1) == 1) by {
            reveal_with_fuel(gcd, 3);
        }
        Duration { numer: 0, denom: 1 }
    }

    pub fn whole() -> (r: Duration)
        ensures
            r@ == (1int, 1int),
    {
        Self::unit(1)
    }

    pub fn half() -> (r: Duration)
        ensures
            r@ == (1int, 2int),
    {
        Self::unit(2)
    }

    pub fn quarter() -> (r: Duration)
        ensures
            r@ == (1int, 4int),
    {
        Self::unit(4)
    }

    pub fn eighth() -> (r: Duration)
        ensures
            r@ == (1int, 8int),
    {
        Self::unit(8)
    }

    pub fn sixteenth() -> (r: Duration)
        ensures
            r@ == (1int, 16int),
    {
        Self::unit(16)
    }

    pub fn thirty_second() -> (r: Duration)
        ensures
            r@ == (1int, 32int),
    {
        Self::unit(32)
    }

    pub fn sixty_fourth() -> (r: Duration)
        ensures
            r@ == (1int, 64int),
    {
        Self::unit(64)
    }

    /// A dotted quarter note (3/8).
    pub fn dotted_quarter() -> (r: Duration)
        ensures
            r@ == (3int, 8int),
    {
        assert(gcd(3, 8) == 1) by {
            reveal_with_fuel(gcd, 5);
        }
        Duration { numer: 3, denom: 8 }
    }

    /// One and a half times the duration (a dot).
    pub fn dotted(self) -> (r: Duration)
        requires
            !mul_overflows(self@, (3, 2)),
        ensures
            lowest_terms(r@.0, r@.1),
            same_value(r@.0, r@.1, self@.0 * 3, self@.1 * 2),
    {
        proof {
            use_type_invariant(&self);
            reveal_with_fuel(gcd, 4);
        }
        let (n, d) = ratio_mul((self.numer, self.denom), (3, 2));
        Duration { numer: n, denom: d }
    }

    /// Two thirds of the duration (a triplet).
    pub fn triplet(self) -> (r: Duration)
        requires
            !mul_overflows(self@, (2, 3)),
        ensures
            lowest_terms(r@.0, r@.1),
            same_value(r@.0, r@.1, self@.0 * 2, self@.1 * 3),
    {
        proof {
            use_type_invariant(&self);
            reveal_with_fuel(gcd, 5);
        }
        let (n, d) = ratio_mul((self.numer, self.denom), (2, 3));
        Duration { numer: n, denom: d }
    }

    /// The sum of two durations.
    pub fn add(self, rhs: Duration) -> (r: Duration)
        requires
            !addsub_overflows(self@, rhs@, 1),
        ensures
            lowest_terms(r@.0, r@.1),
            same_value(r@.0, r@.1, self@.0 * rhs@.1 + rhs@.0 * self@.1, self@.1 * rhs@.1),
    {
        proof {
            use_type_invariant(&self);
            use_type_invariant(&rhs);
        }
        let (n, d) = ratio_add((self.numer, self.denom), (rhs.numer, rhs.denom));
        Duration { numer: n, denom: d }
    }

    /// The difference of two durations.
    pub fn sub(self, rhs: Duration) -> (r: Duration)
        requires
            !addsub_overflows(self@, rhs@, -1),
        ensures
            lowest_terms(r@.0, r@.1),
            same_value(r@.0, r@.1, self@.0 * rhs@.1 - rhs@.0 * self@.1, self@.1 * rhs@.1),
    {
        proof {
            use_type_invariant(&self);
            use_type_invariant(&rhs);
        }
        let (n, d) = ratio_sub((self.numer, self.denom), (rhs.numer, rhs.denom));
        Duration { numer: n, denom: d }
    }

    /// Adds `rhs` in place.
    pub fn add_assign(&mut self, rhs: Duration)
        requires
            !addsub_overflows(old(self)@, rhs@, 1),
        ensures
            lowest_terms(final(self)@.0, final(self)@.1),
            same_value(
                final(self)@.0,
                final(self)@.1,
                old(self)@.0 * rhs@.1 + rhs@.0 * old(self)@.1,
                old(self)@.1 * rhs@.1,
            ),
    {
        *self = self.add(rhs);
    }

    /// Subtracts `rhs` in place.
    pub fn sub_assign(&mut self, rhs: Duration)
        requires
            !addsub_overflows(old(self)@, rhs@, -1),
        ensures
            lowest_terms(final(self)@.0, final(self)@.1),
            same_value(
                final(self)@.0,
                final(self)@.1,
                old(self)@.0 * rhs@.1 - rhs@.0 * old(self)@.1,
                old(self)@.1 * rhs@.1,
            ),
    {
        *self = self.sub(rhs);
    }

    /// The fraction as text, `numerator/denominator` (such as "3/8" or "-1/2").
    pub fn to_string(self) -> (r: String)
        ensures
            r@ == int_text(self@.0) + seq!['/'] + nat_text(self@.1 as nat),
    {
        proof {
            use_type_invariant(&self);
        }
        let mut out = String::new();
        push_int(&mut out, self.numer as i64);
        out.append("/");
        push_nat(&mut out, self.denom as u64);
        proof {
            reveal_strlit("/");
        }
        out
    }

    /// The duration counted in units of which `per_whole` make a whole note,
    /// rounded half away from zero (negative durations count 0).
    pub fn ticks_rounded(self, per_whole: u32) -> (r: u32)
        ensures
            r == scaled_round(self@.0, self@.1, per_whole as int),
    {
        proof {
            use_type_invariant(&self);
        }
        let n = self.numer as i128;
        let m = per_whole as i128;
        let d = self.denom as i128;
        assert(-0x8000_0000 * 0x1_0000_0000 <= n * m <= 0x8000_0000 * 0x1_0000_0000) by (nonlinear_arith)
            requires
                -0x8000_0000 <= n <= 0x8000_0000,
                0 <= m <= 0x1_0000_0000,
        ;
        let p = n * m;
        if p <= 0 {
            return 0;
        }
        let v = (2 * p + d) / (2 * d);
        if v > 0xffff_ffff {
            0xffff_ffff
        } else {
            v as u32
        }
    }

    /// The duration counted in units of which `per_whole` make a whole note,
    /// rounded toward zero (negative durations count 0).
    pub fn ticks_truncated(self, per_whole: u32) -> (r: u32)
        ensures
            r == scaled_trunc(self@.0, self@.1, per_whole as int),
    {
        proof {
            use_type_invariant(&self);
        }
        let n = self.numer as i128;
        let m = per_whole as i128;
        let d = self.denom as i128;
        assert(-0x8000_0000 * 0x1_0000_0000 <= n * m <= 0x8000_0000 * 0x1_0000_0000) by (nonlinear_arith)
            requires
                -0x8000_0000 <= n <= 0x8000_0000,
                0 <= m <= 0x1_0000_0000,
        ;
        let p = n * m;
        if p <= 0 {
            return 0;
        }
        let v = p / d;
        if v > 0xffff_ffff {
            0xffff_ffff
        } else {
            v as u32
        }
    }

    pub fn numer(self) -> (r: i32)
        ensures
            r == self@.0,
    {
        self.numer
    }

    pub fn denom(self) -> (r: i32)
        ensures
            r == self@.1,
            r > 0,
    {
        proof {
            use_type_invariant(&self);
        }
        self.denom
    }
}

/// Bezout coefficients of the Euclidean greatest common divisor.
proof fn lemma_bezout(a: nat, b: nat) -> (xy: (int, int))
    ensures
        a * xy.0 + b * xy.1 == gcd(a, b),
    decreases b,
{
    if b == 0 {
        (1, 0)
    } else {
        let (x, y) = lemma_bezout(b, a % b);
        let q = (a / b) as int;
        lemma_fundamental_div_mod(a as int, b as int);
        assert(a * y + b * (x - q * y) == b * x + (a - b * q) * y) by (nonlinear_arith);
        (y, x - q * y)
    }
}

/// A denominator coprime to `a` that divides `a * c` divides `c`.
proof fn lemma_coprime_divides(a: int, b: int, c: int)
    requires
        b > 0,
        gcd(abs(a), b as nat) == 1,
        (a * c) % b == 0,
    ensures
        c % b == 0,
{
    let (x, y) = lemma_bezout(abs(a), b as nat);
    let sx = if a < 0 { -x } else { x };
    assert(a * sx + b * y == 1) by (nonlinear_arith)
        requires
            abs(a) * x + b * y == 1,
            sx == (if a < 0 { -x } else { x }),
            abs(a) == (if a < 0 { -a } else { a }),
    ;
    lemma_fundamental_div_mod(a * c, b);
    let k = (a * c) / b;
    assert(a * c == b * k);
    let t = k * sx + c * y;
    assert(c == t * b) by (nonlinear_arith)
        requires
            a * sx + b * y == 1,
            a * c == b * k,
            t == k * sx + c * y,
    ;
    lemma_mod_multiples_basic(t, b);
}

/// Two fractions in lowest terms with positive denominators that have the
/// same value are the same pair: the representation is canonical.
pub proof fn lemma_lowest_terms_unique(p: int, q: int, n: int, d: int)
    requires
        lowest_terms(p, q),
        lowest_terms(n, d),
        same_value(p, q, n, d),
    ensures
        p == n,
        q == d,
{
    assert((p * d) % q == 0) by {
        assert(p * d == n * q);
        lemma_mod_multiples_basic(n, q);
    }
    lemma_coprime_divides(p, q, d);
    assert((n * q) % d == 0) by {
        assert(n * q == p * d);
        lemma_mod_multiples_basic(p, d);
    }
    lemma_coprime_divides(n, d, q);
    lemma_fundamental_div_mod(d, q);
    lemma_fundamental_div_mod(q, d);
    assert(q == d) by (nonlinear_arith)
        requires
            q > 0,
            d > 0,
            d == q * (d / q),
            q == d * (q / d),
    ;
    assert(p == n) by (nonlinear_arith)
        requires
            p * d == n * q,
            q == d,
            d > 0,
    ;
}

/// Adding durations commutes: the sums `a + b` and `b + a`, as `add` gives
/// them, are the same duration.
pub proof fn lemma_add_commutes(a: (int, int), b: (int, int), ab: (int, int), ba: (int, int))
    requires
        lowest_terms(a.0, a.1),
        lowest_terms(b.0, b.1),
        lowest_terms(ab.0, ab.1),
        same_value(ab.0, ab.1, a.0 * b.1 + b.0 * a.1, a.1 * b.1),
        lowest_terms(ba.0, ba.1),
        same_value(ba.0, ba.1, b.0 * a.1 + a.0 * b.1, b.1 * a.1),
    ensures
        ab == ba,
{
    assert(same_value(ab.0, ab.1, ba.0, ba.1)) by (nonlinear_arith)
        requires
            ab.0 * (a.1 * b.1) == (a.0 * b.1 + b.0 * a.1) * ab.1,
            ba.0 * (b.1 * a.1) == (b.0 * a.1 + a.0 * b.1) * ba.1,
            a.1 > 0,
            b.1 > 0,
    ;
    lemma_lowest_terms_unique(ab.0, ab.1, ba.0, ba.1);
}

/// Subtraction undoes addition: with `s` the sum `a + b` and `r` the
/// difference `s - b`, as `add` and `sub` give them, `r` is `a` again.
pub proof fn lemma_sub_undoes_add(a: (int, int), b: (int, int), s: (int, int), r: (int, int))
    requires
        lowest_terms(a.0, a.1),
        lowest_terms(b.0, b.1),
        lowest_terms(s.0, s.1),
        same_value(s.0, s.1, a.0 * b.1 + b.0 * a.1, a.1 * b.1),
        lowest_terms(r.0, r.1),
        same_value(r.0, r.1, s.0 * b.1 - b.0 * s.1, s.1 * b.1),
    ensures
        r == a,
{
    let m = s.1 * b.1;
    let e = s.0 * b.1 - b.0 * s.1;
    assert(r.0 * m * a.1 == e * r.1 * a.1) by (nonlinear_arith)
        requires
            r.0 * (s.1 * b.1) == e * r.1,
            m == s.1 * b.1,
    ;
    let x = s.0 * (a.1 * b.1);
    let u = b.0 * a.1 * s.1;
    let v = a.0 * b.1 * s.1;
    assert(e * a.1 == x - u) by (nonlinear_arith)
        requires
            e == s.0 * b.1 - b.0 * s.1,
            x == s.0 * (a.1 * b.1),
            u == b.0 * a.1 * s.1,
    ;
    assert((a.0 * b.1 + b.0 * a.1) * s.1 == v + u) by (nonlinear_arith)
        requires
            u == b.0 * a.1 * s.1,
            v == a.0 * b.1 * s.1,
    ;
    assert(v == a.0 * m) by (nonlinear_arith)
        requires
            v == a.0 * b.1 * s.1,
            m == s.1 * b.1,
    ;
    assert(e * a.1 == a.0 * m);
    assert(r.0 * a.1 * m == a.0 * r.1 * m) by (nonlinear_arith)
        requires
            r.0 * m * a.1 == e * r.1 * a.1,
            e * a.1 == a.0 * m,
    ;
    assert(m > 0) by (nonlinear_arith)
        requires
            m == s.1 * b.1,
            s.1 > 0,
            b.1 > 0,
    ;
    assert(same_value(r.0, r.1, a.0, a.1)) by (nonlinear_arith)
        requires
            r.0 * a.1 * m == a.0 * r.1 * m,
            m > 0,
    ;
    lemma_lowest_terms_unique(r.0, r.1, a.0, a.1);
}

} // verus!
