//! Rational timestamps: `num / den` with an integer numerator and a positive
//! denominator, so that editing never accumulates floating-point drift.
use vstd::prelude::*;
use vstd::arithmetic::div_mod::lemma_fundamental_div_mod;

verus! {

/// Greatest common divisor, by Euclid's algorithm.
pub open spec fn spec_gcd(a: nat, b: nat) -> nat
    decreases b,
{
    if b == 0 {
        a
    } else {
        spec_gcd(b, a % b)
    }
}

/// Least common multiple of two positive numbers.
pub open spec fn spec_lcm(a: nat, b: nat) -> nat {
    a * b / spec_gcd(a, b)
}

pub open spec fn spec_abs(x: int) -> nat {
    if x < 0 {
        (-x) as nat
    } else {
        x as nat
    }
}

/// Division that rounds toward zero, as integer division does in Rust.
pub open spec fn trunc_div(a: int, b: int) -> int {
    if a >= 0 {
        a / b
    } else {
        -((-a) / b)
    }
}

pub open spec fn fits_i64(x: int) -> bool {
    i64::MIN <= x <= i64::MAX
}

/// A rational timestamp `num / den` (seconds).
#[derive(Debug, Clone, Copy)]
pub struct TimeRational {
    pub num: i64,
    pub den: u32,
}

/// The result of reducing `t` to lowest terms (zero becomes `0/1`).
pub open spec fn spec_reduce(t: TimeRational) -> TimeRational {
    if t.num == 0 {
        TimeRational { num: 0, den: 1 }
    } else {
        let g = spec_gcd(spec_abs(t.num as int), t.den as nat);
        if g > 1 {
            TimeRational { num: trunc_div(t.num as int, g as int) as i64, den: ((t.den as nat) / g) as u32 }
        } else {
            t
        }
    }
}

impl TimeRational {
    /// A timestamp is usable when its denominator is positive.
    pub open spec fn wf(self) -> bool {
        self.den > 0
    }

    /// Both timestamps denote the same number of seconds.
    pub open spec fn same_value(self, other: TimeRational) -> bool {
        self.num * other.den == other.num * self.den
    }

    /// `self` denotes strictly fewer seconds than `other`.
    pub open spec fn value_lt(self, other: TimeRational) -> bool {
        self.num * other.den < other.num * self.den
    }

    /// `self` denotes at most as many seconds as `other`.
    pub open spec fn value_le(self, other: TimeRational) -> bool {
        self.num * other.den <= other.num * self.den
    }

    /// The common denominator that `+` and `-` work over.
    pub open spec fn common_den(self, other: TimeRational) -> nat {
        spec_lcm(self.den as nat, other.den as nat)
    }

    /// Numerator of `self + other` over the common denominator, before reduction.
    pub open spec fn raw_sum(self, other: TimeRational) -> int {
        let cd = self.common_den(other);
        self.num * (cd / (self.den as nat)) + other.num * (cd / (other.den as nat))
    }

    /// Numerator of `self - other` over the common denominator, before reduction.
    pub open spec fn raw_diff(self, other: TimeRational) -> int {
        let cd = self.common_den(other);
        self.num * (cd / (self.den as nat)) - other.num * (cd / (other.den as nat))
    }

    /// `self + other` is representable: positive denominators, and the
    /// common denominator and the numerator fit their machine types.
    pub open spec fn add_fits(self, other: TimeRational) -> bool {
        &&& self.wf()
        &&& other.wf()
        &&& self.common_den(other) <= u32::MAX
        &&& fits_i64(self.raw_sum(other))
    }

    /// `self - other` is representable.
    pub open spec fn sub_fits(self, other: TimeRational) -> bool {
        &&& self.wf()
        &&& other.wf()
        &&& self.common_den(other) <= u32::MAX
        &&& fits_i64(self.raw_diff(other))
    }

    pub open spec fn spec_sum(self, other: TimeRational) -> TimeRational {
        spec_reduce(
            TimeRational { num: self.raw_sum(other) as i64, den: self.common_den(other) as u32 },
        )
    }

    pub open spec fn spec_difference(self, other: TimeRational) -> TimeRational {
        spec_reduce(
            TimeRational { num: self.raw_diff(other) as i64, den: self.common_den(other) as u32 },
        )
    }

    pub open spec fn spec_abs_value(self) -> TimeRational {
        TimeRational { num: spec_abs(self.num as int) as i64, den: self.den }
    }

    /// The timestamp `0/1`.
    pub fn zero() -> (r: TimeRational)
        ensures
            r == (TimeRational { num: 0, den: 1 }),
    {
        TimeRational { num: 0, den: 1 }
    }

    /// Build `num / den` in lowest terms.
    pub fn new(num: i64, den: u32) -> (r: TimeRational)
        requires
            den > 0,
        ensures
            r == spec_reduce(TimeRational { num, den }),
            r.wf(),
    {
        let mut r = TimeRational { num, den };
        r.reduce();
        r
    }

    /// Reduce to lowest terms in place.
    pub fn reduce(&mut self)
        requires
            old(self).num == 0 || old(self).wf(),
        ensures
            *final(self) == spec_reduce(*old(self)),
            old(self).wf() ==> final(self).wf(),
    {
        if self.num == 0 {
            self.den = 1;
            return;
        }
        let den0 = self.den;
        let a: u64 = abs_u64(self.num);
        let g64 = gcd(a, self.den as u64);
        proof {
            lemma_gcd_pos(a as nat, self.den as nat);
            let q = lemma_gcd_divides(a as nat, self.den as nat);
            assert(q.1 > 0) by (nonlinear_arith)
                requires
                    self.den as nat == q.1 * g64,
                    self.den > 0,
            ;
            assert(g64 <= self.den) by (nonlinear_arith)
                requires
                    self.den as nat == q.1 * g64,
                    q.1 > 0,
                    g64 > 0,
            ;
        }
        let g = g64 as u32;
        if g > 1 {
            let q = a / g64;
            let d = self.den / g;
            proof {
                let w = lemma_gcd_divides(a as nat, self.den as nat);
                lemma_exact_div(a as nat, w.0, g as nat);
                lemma_exact_div(self.den as nat, w.1, g as nat);
                assert(q <= a) by (nonlinear_arith)
                    requires
                        q == a / g64,
                        g64 > 1,
                ;
            }
            if self.num < 0 {
                proof {
                    assert(q < 0x8000_0000_0000_0000u64) by (nonlinear_arith)
                        requires
                            q == a / g64,
                            g64 > 1,
                            a <= 0x8000_0000_0000_0000u64,
                    ;
                }
                self.num = -(q as i64);
            } else {
                self.num = q as i64;
            }
            self.den = d;
            proof {
                assert(d > 0) by (nonlinear_arith)
                    requires
                        d == den0 / g,
                        g <= den0,
                        g > 0,
                ;
            }
        }
    }

    /// Express the same instant over a new denominator, rounding the
    /// numerator toward zero.
    pub fn rescale(self, new_den: u32) -> (r: TimeRational)
        requires
            self.den == new_den || (self.wf() && fits_i64(
                trunc_div(self.num * new_den, self.den as int),
            )),
        ensures
            self.den == new_den ==> r == self,
            self.den != new_den ==> r == (TimeRational {
                num: trunc_div(self.num * new_den, self.den as int) as i64,
                den: new_den,
            }),
    {
        if self.den == new_den {
            return self;
        }
        let a: u128 = abs_u64(self.num) as u128;
        proof {
            assert(a * (new_den as u128) <= 0x8000_0000_0000_0000u128 * 0xffff_ffffu128)
                by (nonlinear_arith)
                requires
                    a <= 0x8000_0000_0000_0000u128,
                    new_den <= 0xffff_ffffu32,
            ;
        }
        let p: u128 = a * (new_den as u128);
        let q: u128 = p / (self.den as u128);
        proof {
            assert(q <= p) by (nonlinear_arith)
                requires
                    q == p / (self.den as u128),
                    self.den > 0,
            ;
            if self.num >= 0 {
                assert(self.num * new_den == p as int);
            } else {
                assert(-(self.num * new_den) == p as int) by (nonlinear_arith)
                    requires
                        a == -self.num,
                        p == a * (new_den as u128),
                ;
            }
        }
        let num: i64 = if self.num < 0 {
            -(q as i128) as i64
        } else {
            q as i64
        };
        TimeRational { num, den: new_den }
    }

    /// The instant in whole milliseconds, rounded toward zero.
    pub open spec fn spec_millis(self) -> int {
        trunc_div(self.num * 1000, self.den as int)
    }

    /// The instant in whole milliseconds, rounded toward zero.
    pub fn millis(self) -> (r: i128)
        requires
            self.den > 0,
        ensures
            r == self.spec_millis(),
            r > i128::MIN,
    {
        let a: u128 = abs_u64(self.num) as u128;
        let p: u128 = a * 1000;
        let q: u128 = p / (self.den as u128);
        proof {
            assert(q <= p) by (nonlinear_arith)
                requires
                    q == p / (self.den as u128),
                    self.den > 0,
            ;
            if self.num >= 0 {
                assert(self.num * 1000 == p as int);
            } else {
                assert(-(self.num * 1000) == p as int);
            }
        }
        if self.num < 0 {
            -(q as i128)
        } else {
            q as i128
        }
    }

    pub fn is_zero(self) -> (r: bool)
        ensures
            r == (self.num == 0),
    {
        self.num == 0
    }

    /// The absolute value; the denominator is kept as it is.
    pub fn abs(self) -> (r: TimeRational)
        requires
            self.num != i64::MIN,
        ensures
            r == self.spec_abs_value(),
    {
        if self.num < 0 {
            TimeRational { num: -self.num, den: self.den }
        } else {
            self
        }
    }

    /// Exact comparison `self < other` by cross-multiplication.
    pub fn less_than(&self, other: &TimeRational) -> (r: bool)
        ensures
            r == self.value_lt(*other),
    {
        proof {
            lemma_cross_bounds(self.num, other.den);
            lemma_cross_bounds(other.num, self.den);
        }
        let l = (self.num as i128) * (other.den as i128);
        let rr = (other.num as i128) * (self.den as i128);
        l < rr
    }

    /// Exact comparison `self <= other` by cross-multiplication.
    pub fn at_most(&self, other: &TimeRational) -> (r: bool)
        ensures
            r == self.value_le(*other),
    {
        proof {
            lemma_cross_bounds(self.num, other.den);
            lemma_cross_bounds(other.num, self.den);
        }
        let l = (self.num as i128) * (other.den as i128);
        let rr = (other.num as i128) * (self.den as i128);
        l <= rr
    }

    /// Exact equality of the denoted instants.
    pub fn same_instant(&self, other: &TimeRational) -> (r: bool)
        ensures
            r == self.same_value(*other),
    {
        proof {
            lemma_cross_bounds(self.num, other.den);
            lemma_cross_bounds(other.num, self.den);
        }
        let l = (self.num as i128) * (other.den as i128);
        let rr = (other.num as i128) * (self.den as i128);
        l == rr
    }

    /// The later of two timestamps; `other` when they denote the same instant
    /// (as `Ord::max` does).
    pub fn later_of(self, other: TimeRational) -> (r: TimeRational)
        ensures
            r == (if other.value_lt(self) { self } else { other }),
    {
        if other.less_than(&self) {
            self
        } else {
            other
        }
    }

    /// `self + other`, reduced.
    pub fn plus(self, other: TimeRational) -> (r: TimeRational)
        requires
            self.add_fits(other),
        ensures
            r == self.spec_sum(other),
            r.wf(),
    {
        let (cd, fa, fb) = common_factors(self.den, other.den);
        proof {
            lemma_cross_bounds(self.num, fa as u32);
            lemma_cross_bounds(other.num, fb as u32);
        }
        let sa = (self.num as i128) * (fa as i128);
        let sb = (other.num as i128) * (fb as i128);
        let s = sa + sb;
        TimeRational::new(s as i64, cd as u32)
    }

    /// `self - other`, reduced.
    pub fn minus(self, other: TimeRational) -> (r: TimeRational)
        requires
            self.sub_fits(other),
        ensures
            r == self.spec_difference(other),
            r.wf(),
    {
        let (cd, fa, fb) = common_factors(self.den, other.den);
        proof {
            lemma_cross_bounds(self.num, fa as u32);
            lemma_cross_bounds(other.num, fb as u32);
        }
        let sa = (self.num as i128) * (fa as i128);
        let sb = (other.num as i128) * (fb as i128);
        let s = sa - sb;
        TimeRational::new(s as i64, cd as u32)
    }
}

/// Exact three-way comparison of the denoted instants.
pub open spec fn instant_order(a: TimeRational, b: TimeRational) -> core::cmp::Ordering {
    if a.value_lt(b) {
        core::cmp::Ordering::Less
    } else if a.same_value(b) {
        core::cmp::Ordering::Equal
    } else {
        core::cmp::Ordering::Greater
    }
}

impl TimeRational {
    /// Exact three-way comparison of the denoted instants.
    pub fn cmp(&self, other: &TimeRational) -> (r: core::cmp::Ordering)
        ensures
            r == instant_order(*self, *other),
    {
        if self.less_than(other) {
            core::cmp::Ordering::Less
        } else if self.same_instant(other) {
            core::cmp::Ordering::Equal
        } else {
            core::cmp::Ordering::Greater
        }
    }
}

impl PartialEq for TimeRational {
    fn eq(&self, other: &TimeRational) -> (r: bool) {
        self.same_instant(other)
    }
}

impl vstd::std_specs::cmp::PartialEqSpecImpl for TimeRational {
    open spec fn obeys_eq_spec() -> bool {
        true
    }

    open spec fn eq_spec(&self, other: &TimeRational) -> bool {
        self.same_value(*other)
    }
}

impl Eq for TimeRational {
}

impl PartialOrd for TimeRational {
    fn partial_cmp(&self, other: &TimeRational) -> (r: Option<core::cmp::Ordering>) {
        Some(self.cmp(other))
    }
}

impl vstd::std_specs::cmp::PartialOrdSpecImpl for TimeRational {
    open spec fn obeys_partial_cmp_spec() -> bool {
        true
    }

    open spec fn partial_cmp_spec(&self, other: &TimeRational) -> Option<core::cmp::Ordering> {
        Some(instant_order(*self, *other))
    }
}

impl core::ops::Add for TimeRational {
    type Output = TimeRational;

    fn add(self, rhs: TimeRational) -> (r: TimeRational) {
        self.plus(rhs)
    }
}

impl vstd::std_specs::ops::AddSpecImpl for TimeRational {
    open spec fn obeys_add_spec() -> bool {
        true
    }

    open spec fn add_req(self, rhs: TimeRational) -> bool {
        self.add_fits(rhs)
    }

    open spec fn add_spec(self, rhs: TimeRational) -> TimeRational {
        self.spec_sum(rhs)
    }
}

impl core::ops::Sub for TimeRational {
    type Output = TimeRational;

    fn sub(self, rhs: TimeRational) -> (r: TimeRational) {
        self.minus(rhs)
    }
}

impl vstd::std_specs::ops::SubSpecImpl for TimeRational {
    open spec fn obeys_sub_spec() -> bool {
        true
    }

    open spec fn sub_req(self, rhs: TimeRational) -> bool {
        self.sub_fits(rhs)
    }

    open spec fn sub_spec(self, rhs: TimeRational) -> TimeRational {
        self.spec_difference(rhs)
    }
}


/// `t` denotes the fraction `n / d`.
pub open spec fn denotes(t: TimeRational, n: int, d: int) -> bool {
    t.num * d == n * t.den
}

/// `a + b` denotes the sum of the fractions that `a` and `b` denote.
pub proof fn lemma_sum_denotes(a: TimeRational, b: TimeRational, na: int, da: int, nb: int, db: int)
    requires
        a.add_fits(b),
        da > 0,
        db > 0,
        denotes(a, na, da),
        denotes(b, nb, db),
    ensures
        denotes(a.spec_sum(b), na * db + nb * da, da * db),
{
    lemma_sum_value(a, b);
    let sm = a.spec_sum(b);
    let (an, ad, bn, bd, sn, sd) = (a.num as int, a.den as int, b.num as int, b.den as int, sm.num as int, sm.den as int);
    lemma_combination_denotes(an, ad, bn, bd, sn, sd, na, da, nb, db, 1);
}

/// `a - b` denotes the difference of the fractions that `a` and `b` denote.
pub proof fn lemma_difference_denotes(
    a: TimeRational,
    b: TimeRational,
    na: int,
    da: int,
    nb: int,
    db: int,
)
    requires
        a.sub_fits(b),
        da > 0,
        db > 0,
        denotes(a, na, da),
        denotes(b, nb, db),
    ensures
        denotes(a.spec_difference(b), na * db - nb * da, da * db),
{
    lemma_difference_value(a, b);
    let df = a.spec_difference(b);
    let (an, ad, bn, bd, sn, sd) = (a.num as int, a.den as int, b.num as int, b.den as int, df.num as int, df.den as int);
    assert(an * bd - bn * ad == an * bd + (-1) * (bn * ad));
    assert(na * db - nb * da == na * db + (-1) * (nb * da));
    lemma_combination_denotes(an, ad, bn, bd, sn, sd, na, da, nb, db, -1);
}

/// If `sn / sd` is `an / ad + k * bn / bd`, and these fractions equal
/// `na / da` and `nb / db`, then `sn / sd` is `na / da + k * nb / db`.
proof fn lemma_combination_denotes(
    an: int,
    ad: int,
    bn: int,
    bd: int,
    sn: int,
    sd: int,
    na: int,
    da: int,
    nb: int,
    db: int,
    k: int,
)
    requires
        ad > 0,
        bd > 0,
        da > 0,
        db > 0,
        sn * (ad * bd) == (an * bd + k * (bn * ad)) * sd,
        an * da == na * ad,
        bn * db == nb * bd,
    ensures
        sn * (da * db) == (na * db + k * (nb * da)) * sd,
{
    let p = da * db;
    let q = ad * bd;
    assert((an * bd + k * (bn * ad)) * p == an * bd * p + k * (bn * ad * p)) by (nonlinear_arith);
    assert((na * db + k * (nb * da)) * q == na * db * q + k * (nb * da * q)) by (nonlinear_arith);
    assert(an * bd * p == (an * da) * (bd * db)) by (nonlinear_arith)
        requires
            p == da * db,
    ;
    assert(na * db * q == (na * ad) * (bd * db)) by (nonlinear_arith)
        requires
            q == ad * bd,
    ;
    assert(bn * ad * p == (bn * db) * (ad * da)) by (nonlinear_arith)
        requires
            p == da * db,
    ;
    assert(nb * da * q == (nb * bd) * (ad * da)) by (nonlinear_arith)
        requires
            q == ad * bd,
    ;
    assert((an * bd + k * (bn * ad)) * p == (na * db + k * (nb * da)) * q);
    assert(sn * p * q == (na * db + k * (nb * da)) * sd * q) by (nonlinear_arith)
        requires
            sn * q == (an * bd + k * (bn * ad)) * sd,
            (an * bd + k * (bn * ad)) * p == (na * db + k * (nb * da)) * q,
    {
        assert(sn * p * q == sn * q * p);
        assert((an * bd + k * (bn * ad)) * sd * p == (an * bd + k * (bn * ad)) * p * sd);
        assert((na * db + k * (nb * da)) * q * sd == (na * db + k * (nb * da)) * sd * q);
    }
    assert(ad * bd > 0) by (nonlinear_arith)
        requires
            ad > 0,
            bd > 0,
    ;
    lemma_cancel_positive(sn * p, (na * db + k * (nb * da)) * sd, q);
}

/// A positive factor can be cancelled from both sides of an equation.
proof fn lemma_cancel_positive(x: int, y: int, m: int)
    requires
        m > 0,
        x * m == y * m,
    ensures
        x == y,
{
    assert(x == y) by (nonlinear_arith)
        requires
            m > 0,
            x * m == y * m,
    {
        assert((x - y) * m == 0);
    }
}

/// Two timestamps that denote equal fractions have the same value.
pub proof fn lemma_denotes_same_value(x: TimeRational, y: TimeRational, n1: int, d1: int, n2: int, d2: int)
    requires
        x.wf(),
        y.wf(),
        d1 > 0,
        d2 > 0,
        denotes(x, n1, d1),
        denotes(y, n2, d2),
        n1 * d2 == n2 * d1,
    ensures
        x.same_value(y),
{
    let (xn, xd, yn, yd) = (x.num as int, x.den as int, y.num as int, y.den as int);
    let m = d1 * d2;
    assert(xn * yd * m == (xn * d1) * (yd * d2)) by (nonlinear_arith)
        requires
            m == d1 * d2,
    ;
    assert((n1 * xd) * (yd * d2) == (n1 * d2) * (xd * yd)) by (nonlinear_arith);
    assert((n2 * d1) * (xd * yd) == (n2 * yd) * (xd * d1)) by (nonlinear_arith);
    assert((yn * d2) * (xd * d1) == yn * xd * m) by (nonlinear_arith)
        requires
            m == d1 * d2,
    ;
    assert(xn * yd * m == yn * xd * m);
    assert(d1 * d2 > 0) by (nonlinear_arith)
        requires
            d1 > 0,
            d2 > 0,
    ;
    lemma_cancel_positive(xn * yd, yn * xd, m);
}

/// Adding then subtracting the same timestamp gives back the value started from.
pub proof fn lemma_add_then_subtract(a: TimeRational, b: TimeRational)
    requires
        a.add_fits(b),
        a.spec_sum(b).sub_fits(b),
    ensures
        a.spec_sum(b).spec_difference(b).same_value(a),
{
    let (an, ad, bn, bd) = (a.num as int, a.den as int, b.num as int, b.den as int);
    let s = a.spec_sum(b);
    let sd = ad * bd;
    assert(sd > 0) by (nonlinear_arith)
        requires
            ad > 0,
            bd > 0,
            sd == ad * bd,
    ;
    lemma_sum_denotes(a, b, an, ad, bn, bd);
    let sn = an * bd + bn * ad;
    lemma_difference_denotes(s, b, sn, sd, bn, bd);
    lemma_difference_value(s, b);
    let dn = sn * bd - bn * sd;
    let dd = sd * bd;
    assert(dd > 0) by (nonlinear_arith)
        requires
            sd > 0,
            bd > 0,
            dd == sd * bd,
    ;
    assert(dn == an * (bd * bd)) by (nonlinear_arith)
        requires
            dn == sn * bd - bn * sd,
            sn == an * bd + bn * ad,
            sd == ad * bd,
    ;
    assert(dd == ad * (bd * bd)) by (nonlinear_arith)
        requires
            dd == sd * bd,
            sd == ad * bd,
    ;
    assert(dn * ad == an * dd) by (nonlinear_arith)
        requires
            dn == an * (bd * bd),
            dd == ad * (bd * bd),
    ;
    lemma_denotes_same_value(s.spec_difference(b), a, dn, dd, an, ad);
}

/// Addition does not depend on the order of its operands (by value).
pub proof fn lemma_sum_commutes(a: TimeRational, b: TimeRational)
    requires
        a.add_fits(b),
        b.add_fits(a),
    ensures
        a.spec_sum(b).same_value(b.spec_sum(a)),
{
    let (an, ad, bn, bd) = (a.num as int, a.den as int, b.num as int, b.den as int);
    lemma_sum_denotes(a, b, an, ad, bn, bd);
    lemma_sum_denotes(b, a, bn, bd, an, ad);
    lemma_sum_value(a, b);
    lemma_sum_value(b, a);
    let d1 = ad * bd;
    let d2 = bd * ad;
    assert(d1 > 0 && d1 == d2) by (nonlinear_arith)
        requires
            ad > 0,
            bd > 0,
            d1 == ad * bd,
            d2 == bd * ad,
    ;
    assert((an * bd + bn * ad) * d2 == (bn * ad + an * bd) * d1) by (nonlinear_arith)
        requires
            d1 == d2,
    ;
    lemma_denotes_same_value(a.spec_sum(b), b.spec_sum(a), an * bd + bn * ad, d1, bn * ad + an * bd, d2);
}

/// Equality by value is an equivalence on timestamps with positive
/// denominators: `==` on timestamps is reflexive, symmetric and transitive.
pub proof fn lemma_same_value_equivalence(a: TimeRational, b: TimeRational, c: TimeRational)
    requires
        a.wf(),
        b.wf(),
        c.wf(),
    ensures
        a.same_value(a),
        a.same_value(b) ==> b.same_value(a),
        a.same_value(b) && b.same_value(c) ==> a.same_value(c),
{
    if a.same_value(b) && b.same_value(c) {
        lemma_value_le_transitive(a, b, c);
        lemma_value_le_transitive(c, b, a);
    }
}

/// Comparison by value is transitive.
pub proof fn lemma_value_le_transitive(a: TimeRational, b: TimeRational, c: TimeRational)
    requires
        a.wf(),
        b.wf(),
        c.wf(),
        a.value_le(b),
        b.value_le(c),
    ensures
        a.value_le(c),
{
    let (an, ad, bn, bd, cn, cd) = (a.num as int, a.den as int, b.num as int, b.den as int, c.num as int, c.den as int);
    assert(an * cd * bd <= cn * ad * bd) by (nonlinear_arith)
        requires
            ad > 0,
            bd > 0,
            cd > 0,
            an * bd <= bn * ad,
            bn * cd <= cn * bd,
    {
        assert(an * bd * cd <= bn * ad * cd);
        assert(bn * cd * ad <= cn * bd * ad);
    }
    assert(an * cd <= cn * ad) by (nonlinear_arith)
        requires
            bd > 0,
            an * cd * bd <= cn * ad * bd,
    ;
}

/// Reducing to lowest terms keeps the denoted instant.
pub proof fn lemma_reduce_same_value(t: TimeRational)
    requires
        t.wf(),
    ensures
        spec_reduce(t).same_value(t),
        spec_reduce(t).wf(),
{
    if t.num != 0 {
        let a = spec_abs(t.num as int);
        let g = spec_gcd(a, t.den as nat);
        lemma_gcd_pos(a, t.den as nat);
        if g > 1 {
            let w = lemma_gcd_divides(a, t.den as nat);
            lemma_exact_div(a, w.0, g);
            lemma_exact_div(t.den as nat, w.1, g);
            let r = spec_reduce(t);
            assert(w.0 <= a) by (nonlinear_arith)
                requires
                    a == w.0 * g,
                    g > 0,
            ;
            if t.num >= 0 {
                assert(trunc_div(t.num as int, g as int) == w.0);
            } else {
                assert(trunc_div(t.num as int, g as int) == -w.0);
            }
            assert(r.num * g == t.num) by (nonlinear_arith)
                requires
                    a == w.0 * g,
                    t.num >= 0 ==> r.num == w.0 && a == t.num,
                    t.num < 0 ==> r.num == -w.0 && a == -t.num,
            ;
            assert(r.den * g == t.den);
            assert(r.num * t.den == t.num * r.den) by (nonlinear_arith)
                requires
                    r.num * g == t.num,
                    r.den * g == t.den,
            ;
            assert(r.den > 0) by (nonlinear_arith)
                requires
                    r.den * g == t.den,
                    t.den > 0,
                    g > 0,
                    r.den >= 0,
            ;
        }
    }
}

/// Reducing is idempotent: a reduced timestamp is in lowest terms, and
/// reducing it again changes nothing.
pub proof fn lemma_reduce_idempotent(t: TimeRational)
    requires
        t.wf(),
    ensures
        spec_reduce(spec_reduce(t)) == spec_reduce(t),
        spec_gcd(spec_abs(spec_reduce(t).num as int), spec_reduce(t).den as nat) == 1,
        t.num == 0 ==> spec_reduce(t).den == 1,
{
    lemma_reduce_same_value(t);
    let r = spec_reduce(t);
    if t.num == 0 {
        assert(spec_gcd(0, 1) == spec_gcd(1, 0));
    } else {
        let a = spec_abs(t.num as int);
        let g = spec_gcd(a, t.den as nat);
        lemma_gcd_pos(a, t.den as nat);
        if g > 1 {
            let w = lemma_gcd_divides(a, t.den as nat);
            lemma_exact_div(a, w.0, g);
            lemma_exact_div(t.den as nat, w.1, g);
            if t.num >= 0 {
                assert(trunc_div(t.num as int, g as int) == w.0);
            } else {
                assert(trunc_div(t.num as int, g as int) == -w.0);
            }
            assert(spec_abs(r.num as int) == w.0);
            assert(r.den as nat == w.1);
            lemma_gcd_scale(g, w.0, w.1);
            assert(g * w.0 == a && g * w.1 == t.den) by (nonlinear_arith)
                requires
                    a == w.0 * g,
                    t.den == w.1 * g,
            ;
            assert(g * spec_gcd(w.0, w.1) == g * 1);
            assert(spec_gcd(w.0, w.1) == 1) by (nonlinear_arith)
                requires
                    g * spec_gcd(w.0, w.1) == g * 1,
                    g > 0,
            ;
            assert(w.0 > 0) by (nonlinear_arith)
                requires
                    a == w.0 * g,
                    a > 0,
            ;
        }
    }
}

/// The gcd scales with a common positive factor.
proof fn lemma_gcd_scale(k: nat, x: nat, y: nat)
    requires
        k > 0,
    ensures
        spec_gcd(k * x, k * y) == k * spec_gcd(x, y),
    decreases y,
{
    if y == 0 {
        assert(k * y == 0);
    } else {
        lemma_fundamental_div_mod(x as int, y as int);
        let q = x / y;
        let r = x % y;
        assert(k * x == q * (k * y) + k * r && 0 <= k * r < k * y) by (nonlinear_arith)
            requires
                x == y * q + r,
                0 <= r < y,
                k > 0,
        ;
        vstd::arithmetic::div_mod::lemma_fundamental_div_mod_converse(
            (k * x) as int,
            (k * y) as int,
            q as int,
            (k * r) as int,
        );
        assert(((k * x) as nat) % ((k * y) as nat) == (k * r) as nat);
        lemma_gcd_scale(k, y, r);
    }
}

/// The sum denotes the sum of the two instants.
pub proof fn lemma_sum_value(a: TimeRational, b: TimeRational)
    requires
        a.add_fits(b),
    ensures
        a.spec_sum(b).num * (a.den * b.den) == (a.num * b.den + b.num * a.den) * a.spec_sum(b).den,
        a.spec_sum(b).wf(),
{
    let cd = a.common_den(b);
    lemma_lcm_pos(a.den as nat, b.den as nat);
    lemma_fundamental_div_mod(cd as int, a.den as int);
    lemma_fundamental_div_mod(cd as int, b.den as int);
    let raw = TimeRational { num: a.raw_sum(b) as i64, den: cd as u32 };
    lemma_reduce_same_value(raw);
    let r = a.spec_sum(b);
    let fa = cd / (a.den as nat);
    let fb = cd / (b.den as nat);
    let x = a.num * b.den + b.num * a.den;
    let d = a.den * b.den;
    assert(a.num * fa * a.den == a.num * cd) by (nonlinear_arith)
        requires
            cd == a.den * fa,
    ;
    assert(b.num * fb * b.den == b.num * cd) by (nonlinear_arith)
        requires
            cd == b.den * fb,
    ;
    lemma_scaled_combination(a.num as int, b.num as int, fa as int, fb as int, a.den as int, b.den as int, cd as int, 1);
    assert(a.raw_sum(b) * d == cd * x);
    assert((r.num * d) * cd == (x * r.den) * cd) by (nonlinear_arith)
        requires
            r.num * cd == a.raw_sum(b) * r.den,
            a.raw_sum(b) * d == cd * x,
    ;
    assert(r.num * d == x * r.den) by (nonlinear_arith)
        requires
            (r.num * d) * cd == (x * r.den) * cd,
            cd > 0,
    ;
}

/// The difference denotes the difference of the two instants.
pub proof fn lemma_difference_value(a: TimeRational, b: TimeRational)
    requires
        a.sub_fits(b),
    ensures
        a.spec_difference(b).num * (a.den * b.den) == (a.num * b.den - b.num * a.den)
            * a.spec_difference(b).den,
        a.spec_difference(b).wf(),
{
    let cd = a.common_den(b);
    lemma_lcm_pos(a.den as nat, b.den as nat);
    lemma_fundamental_div_mod(cd as int, a.den as int);
    lemma_fundamental_div_mod(cd as int, b.den as int);
    let raw = TimeRational { num: a.raw_diff(b) as i64, den: cd as u32 };
    lemma_reduce_same_value(raw);
    let r = a.spec_difference(b);
    let fa = cd / (a.den as nat);
    let fb = cd / (b.den as nat);
    let x = a.num * b.den - b.num * a.den;
    let d = a.den * b.den;
    assert(a.num * fa * a.den == a.num * cd) by (nonlinear_arith)
        requires
            cd == a.den * fa,
    ;
    assert(b.num * fb * b.den == b.num * cd) by (nonlinear_arith)
        requires
            cd == b.den * fb,
    ;
    lemma_scaled_combination(a.num as int, b.num as int, fa as int, fb as int, a.den as int, b.den as int, cd as int, -1);
    assert(a.raw_diff(b) * d == cd * x);
    assert((r.num * d) * cd == (x * r.den) * cd) by (nonlinear_arith)
        requires
            r.num * cd == a.raw_diff(b) * r.den,
            a.raw_diff(b) * d == cd * x,
    ;
    assert(r.num * d == x * r.den) by (nonlinear_arith)
        requires
            (r.num * d) * cd == (x * r.den) * cd,
            cd > 0,
    ;
}

/// `(na*fa + s*nb*fb) * (da*db) == cd * (na*db + s*nb*da)` when `cd == da*fa == db*fb`.
proof fn lemma_scaled_combination(na: int, nb: int, fa: int, fb: int, da: int, db: int, cd: int, s: int)
    requires
        cd == da * fa,
        cd == db * fb,
    ensures
        (na * fa + s * (nb * fb)) * (da * db) == cd * (na * db + s * (nb * da)),
{
    assert(na * fa * (da * db) == na * db * cd) by (nonlinear_arith)
        requires
            cd == da * fa,
    ;
    assert(nb * fb * (da * db) == nb * da * cd) by (nonlinear_arith)
        requires
            cd == db * fb,
    ;
    assert((na * fa + s * (nb * fb)) * (da * db) == na * fa * (da * db) + s * (nb * fb * (da * db)))
        by (nonlinear_arith);
    assert(cd * (na * db + s * (nb * da)) == na * db * cd + s * (nb * da * cd)) by (nonlinear_arith);
}

/// The common denominator of two positive denominators and the factor by
/// which each of them is scaled up to it.
fn common_factors(a: u32, b: u32) -> (r: (u64, u64, u64))
    requires
        a > 0,
        b > 0,
        spec_lcm(a as nat, b as nat) <= u32::MAX,
    ensures
        r.0 == spec_lcm(a as nat, b as nat),
        r.1 == spec_lcm(a as nat, b as nat) / (a as nat),
        r.2 == spec_lcm(a as nat, b as nat) / (b as nat),
        r.0 > 0,
        r.1 <= u32::MAX,
        r.2 <= u32::MAX,
{
    let g = gcd(a as u64, b as u64);
    proof {
        lemma_gcd_pos(a as nat, b as nat);
        assert((a as u64) * (b as u64) <= 0xffff_ffffu64 * 0xffff_ffffu64) by (nonlinear_arith)
            requires
                a <= 0xffff_ffffu32,
                b <= 0xffff_ffffu32,
        ;
        lemma_lcm_pos(a as nat, b as nat);
    }
    let cd = (a as u64) * (b as u64) / g;
    let fa = cd / (a as u64);
    let fb = cd / (b as u64);
    proof {
        assert(fa <= cd) by (nonlinear_arith)
            requires
                fa == cd / (a as u64),
                a > 0,
        ;
        assert(fb <= cd) by (nonlinear_arith)
            requires
                fb == cd / (b as u64),
                b > 0,
        ;
    }
    (cd, fa, fb)
}

/// `|x|` as an unsigned number (exact also for `i64::MIN`).
fn abs_u64(x: i64) -> (r: u64)
    ensures
        r == spec_abs(x as int),
        r <= 0x8000_0000_0000_0000u64,
{
    if x < 0 {
        (-(x as i128)) as u64
    } else {
        x as u64
    }
}

/// Greatest common divisor by Euclid's algorithm.
pub fn gcd(a: u64, b: u64) -> (r: u64)
    ensures
        r == spec_gcd(a as nat, b as nat),
{
    let mut x = a;
    let mut y = b;
    while y != 0
        invariant
            spec_gcd(x as nat, y as nat) == spec_gcd(a as nat, b as nat),
        decreases y,
    {
        let t = y;
        y = x % y;
        x = t;
    }
    x
}

/// The gcd divides both arguments: the returned pair are the quotients.
pub proof fn lemma_gcd_divides(a: nat, b: nat) -> (q: (nat, nat))
    ensures
        a == q.0 * spec_gcd(a, b),
        b == q.1 * spec_gcd(a, b),
    decreases b,
{
    if b == 0 {
        (1, 0)
    } else {
        let w = lemma_gcd_divides(b, a % b);
        let g = spec_gcd(a, b);
        lemma_fundamental_div_mod(a as int, b as int);
        let k = a / b;
        assert(a == (k * w.0 + w.1) * g) by (nonlinear_arith)
            requires
                a == b * k + a % b,
                b == w.0 * g,
                a % b == w.1 * g,
        ;
        ((k * w.0 + w.1) as nat, w.0)
    }
}

/// The gcd of two numbers that are not both zero is positive.
pub proof fn lemma_gcd_pos(a: nat, b: nat)
    requires
        a > 0 || b > 0,
    ensures
        spec_gcd(a, b) > 0,
    decreases b,
{
    if b > 0 {
        lemma_gcd_pos(b, a % b);
    }
}

/// Dividing an exact multiple gives back the factor.
proof fn lemma_exact_div(x: nat, q: nat, g: nat)
    requires
        x == q * g,
        g > 0,
    ensures
        x / g == q,
{
    lemma_fundamental_div_mod(x as int, g as int);
    vstd::arithmetic::div_mod::lemma_div_multiples_vanish(q as int, g as int);
    assert(q * g == g * q) by (nonlinear_arith);
}

/// The least common multiple of positive numbers is a positive common multiple.
pub proof fn lemma_lcm_pos(a: nat, b: nat)
    requires
        a > 0,
        b > 0,
    ensures
        spec_lcm(a, b) > 0,
        spec_lcm(a, b) == (a / spec_gcd(a, b)) * b,
        spec_lcm(a, b) == (b / spec_gcd(a, b)) * a,
        spec_lcm(a, b) % a == 0,
        spec_lcm(a, b) % b == 0,
{
    let g = spec_gcd(a, b);
    lemma_gcd_pos(a, b);
    let w = lemma_gcd_divides(a, b);
    lemma_exact_div(a, w.0, g);
    lemma_exact_div(b, w.1, g);
    assert(a * b == (w.0 * b) * g) by (nonlinear_arith)
        requires
            a == w.0 * g,
    ;
    lemma_exact_div(a * b, w.0 * b, g);
    assert(w.0 * b == (w.1 * a)) by (nonlinear_arith)
        requires
            a == w.0 * g,
            b == w.1 * g,
    ;
    assert(w.0 > 0 && w.1 > 0) by (nonlinear_arith)
        requires
            a == w.0 * g,
            b == w.1 * g,
            a > 0,
            b > 0,
    ;
    assert(w.0 * b > 0) by (nonlinear_arith)
        requires
            w.0 > 0,
            b > 0,
    ;
    vstd::arithmetic::div_mod::lemma_mod_multiples_basic(w.0 as int, b as int);
    vstd::arithmetic::div_mod::lemma_mod_multiples_basic(w.1 as int, a as int);
}

/// Products of a numerator and a denominator fit comfortably in an i128.
proof fn lemma_cross_bounds(n: i64, d: u32)
    ensures
        -0x8000_0000_0000_0000_0000_0000int <= (n as int) * (d as int) <= 0x8000_0000_0000_0000_0000_0000int,
{
    assert(-0x8000_0000_0000_0000_0000_0000int <= (n as int) * (d as int) <= 0x8000_0000_0000_0000_0000_0000int)
        by (nonlinear_arith)
        requires
            -0x8000_0000_0000_0000int <= n <= 0x7fff_ffff_ffff_ffffint,
            0 <= d <= 0xffff_ffffint,
    ;
}

} // verus!
