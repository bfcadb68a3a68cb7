//! Exact rational arithmetic for production rates.
//!
//! Every rate, speed and amount in the calculator is a `Rat`: a signed
//! numerator over a positive denominator. The mathematical value of a
//! `Rat` is the ghost `Ratio`, and all contracts compare `Ratio`s by
//! cross multiplication (`rat_eq`, `rat_le`), so they never depend on a
//! particular choice of representative.
//!
//! The executable operations reduce their result by the greatest common
//! divisor and return `None` when even the reduced result falls outside
//! the 64-bit range; on inputs whose numerators and denominators are
//! bounded by `2^30` (`rat_small`) they are guaranteed to succeed.

use vstd::prelude::*;
use vstd::arithmetic::div_mod::{lemma_fundamental_div_mod, lemma_div_multiples_vanish};

verus! {

/// The mathematical value of a rational: numerator `n` over denominator `d`.
pub struct Ratio {
    pub n: int,
    pub d: int,
}

/// The denominator is positive, so the ratio denotes a real number and
/// `rat_le` orders it correctly.
pub open spec fn rat_pos(r: Ratio) -> bool {
    r.d >= 1
}

/// Equality of the denoted values, by cross multiplication.
pub open spec fn rat_eq(a: Ratio, b: Ratio) -> bool {
    a.n * b.d == b.n * a.d
}

/// Order on the denoted values; meaningful when both are `rat_pos`.
pub open spec fn rat_le(a: Ratio, b: Ratio) -> bool {
    a.n * b.d <= b.n * a.d
}

/// Strict order on the denoted values; meaningful when both are `rat_pos`.
pub open spec fn rat_lt(a: Ratio, b: Ratio) -> bool {
    a.n * b.d < b.n * a.d
}

pub open spec fn rat_of_int(i: int) -> Ratio {
    Ratio { n: i, d: 1 }
}

pub open spec fn rat_add(a: Ratio, b: Ratio) -> Ratio {
    Ratio { n: a.n * b.d + b.n * a.d, d: a.d * b.d }
}

pub open spec fn rat_sub(a: Ratio, b: Ratio) -> Ratio {
    Ratio { n: a.n * b.d - b.n * a.d, d: a.d * b.d }
}

pub open spec fn rat_mul(a: Ratio, b: Ratio) -> Ratio {
    Ratio { n: a.n * b.n, d: a.d * b.d }
}

/// Quotient of the denoted values; meaningful when `b.n != 0`. The
/// denominator keeps the sign of `b.n`; `rat_eq` is insensitive to it.
pub open spec fn rat_div(a: Ratio, b: Ratio) -> Ratio {
    Ratio { n: a.n * b.d, d: a.d * b.n }
}

pub open spec fn rat_neg(a: Ratio) -> Ratio {
    Ratio { n: -a.n, d: a.d }
}

/// The quotient written with a positive denominator whatever the sign of
/// `b.n`; equal to `rat_div(a, b)` under `rat_eq`.
pub open spec fn rat_quot(a: Ratio, b: Ratio) -> Ratio {
    if b.n >= 0 {
        Ratio { n: a.n * b.d, d: b.n * a.d }
    } else {
        Ratio { n: -(a.n * b.d), d: -(b.n * a.d) }
    }
}

/// Small enough that one sum of products of two such rationals stays far
/// inside the 64-bit range, so the checked operations cannot fail.
pub open spec fn rat_small(r: Ratio) -> bool {
    -0x4000_0000 <= r.n <= 0x4000_0000 && 1 <= r.d <= 0x4000_0000
}

/// Fits the 64-bit representation (the numerator symmetrically).
pub open spec fn rat_fits(r: Ratio) -> bool {
    -0x7fff_ffff_ffff_ffff <= r.n <= 0x7fff_ffff_ffff_ffff && 1 <= r.d <= 0x7fff_ffff_ffff_ffff
}

pub open spec fn int_abs(x: int) -> int {
    if x >= 0 {
        x
    } else {
        -x
    }
}

/// The canonical representative: both parts divided by their greatest
/// common divisor.
pub open spec fn rat_norm(r: Ratio) -> Ratio
    recommends
        r.d >= 1,
{
    let g = gcd(int_abs(r.n) as nat, r.d as nat) as int;
    Ratio { n: r.n / g, d: r.d / g }
}

/// Euclid's greatest common divisor.
pub open spec fn gcd(a: nat, b: nat) -> nat
    decreases b,
{
    if b == 0 {
        a
    } else {
        gcd(b, a % b)
    }
}

/// `x` is an integer multiple of `g`.
pub open spec fn divides(g: int, x: int) -> bool {
    exists|k: int| x == #[trigger] (g * k)
}

pub proof fn lemma_gcd_pos(a: nat, b: nat)
    requires
        a > 0 || b > 0,
    ensures
        gcd(a, b) > 0,
    decreases b,
{
    if b > 0 {
        lemma_gcd_pos(b, a % b);
    }
}

pub proof fn lemma_gcd_divides(a: nat, b: nat)
    ensures
        divides(gcd(a, b) as int, a as int),
        divides(gcd(a, b) as int, b as int),
    decreases b,
{
    if b == 0 {
        assert(a as int == (a as int) * 1);
        assert(0int == (a as int) * 0);
    } else {
        lemma_gcd_divides(b, a % b);
        let g = gcd(b, a % b) as int;
        let k1 = choose|k: int| b as int == #[trigger] (g * k);
        let k2 = choose|k: int| (a % b) as int == #[trigger] (g * k);
        lemma_fundamental_div_mod(a as int, b as int);
        let q = a as int / b as int;
        assert(a as int == (g * k1) * q + g * k2);
        assert((g * k1) * q + g * k2 == g * (k1 * q + k2)) by (nonlinear_arith);
        assert(a as int == g * (k1 * q + k2));
    }
}

/// Dividing both parts of a fraction by a common divisor keeps its value,
/// keeps the denominator positive, and does not enlarge either part.
proof fn lemma_reduce_by_divisor(n: int, d: int, g: int, n2: int, d2: int)
    requires
        0 <= n,
        1 <= d,
        1 <= g,
        divides(g, n),
        divides(g, d),
        n2 == n / g,
        d2 == d / g,
    ensures
        1 <= d2 <= d,
        0 <= n2 <= n,
        n2 * d == n * d2,
{
    let kn = choose|k: int| n == #[trigger] (g * k);
    let kd = choose|k: int| d == #[trigger] (g * k);
    lemma_div_multiples_vanish(kn, g);
    lemma_div_multiples_vanish(kd, g);
    assert(n2 == kn);
    assert(d2 == kd);
    assert(1 <= kd <= d && 0 <= kn <= n) by (nonlinear_arith)
        requires
            1 <= g,
            0 <= n,
            1 <= d,
            n == g * kn,
            d == g * kd;
    assert(kn * (g * kd) == (g * kn) * kd) by (nonlinear_arith);
}

/// Reduction keeps the value, keeps the denominator positive, and
/// never enlarges either part, so a representable value stays
/// representable.
pub proof fn lemma_norm_props(r: Ratio)
    requires
        rat_pos(r),
    ensures
        rat_pos(rat_norm(r)),
        rat_eq(rat_norm(r), r),
        rat_fits(r) ==> rat_fits(rat_norm(r)),
{
    let m = int_abs(r.n);
    lemma_gcd_pos(m as nat, r.d as nat);
    lemma_gcd_divides(m as nat, r.d as nat);
    let g = gcd(m as nat, r.d as nat) as int;
    if r.n >= 0 {
        lemma_reduce_by_divisor(r.n, r.d, g, r.n / g, r.d / g);
    } else {
        lemma_reduce_by_divisor(m, r.d, g, m / g, r.d / g);
        let kn = choose|k: int| m == #[trigger] (g * k);
        lemma_div_multiples_vanish(kn, g);
        lemma_div_multiples_vanish(-kn, g);
        assert(g * (-kn) == -(g * kn)) by (nonlinear_arith);
        assert(r.n == g * (-kn));
        assert(r.n / g == -kn);
        assert(m / g == kn);
        assert((-kn) * r.d == -(kn * r.d)) by (nonlinear_arith);
        assert((-m) * (r.d / g) == -(m * (r.d / g))) by (nonlinear_arith);
    }
}

/* Algebra of the denoted values, under `rat_eq`. */

pub proof fn lemma_rat_eq_trans(a: Ratio, b: Ratio, c: Ratio) by (nonlinear_arith)
    requires
        rat_eq(a, b),
        rat_eq(b, c),
        b.d != 0,
    ensures
        rat_eq(a, c),
{
}

pub proof fn lemma_rat_eq_sym(a: Ratio, b: Ratio)
    requires
        rat_eq(a, b),
    ensures
        rat_eq(b, a),
{
}

/// Multiplication respects value equality in either argument.
pub proof fn lemma_rat_mul_congr(a: Ratio, a2: Ratio, b: Ratio, b2: Ratio)
    requires
        rat_eq(a, a2),
        rat_eq(b, b2),
    ensures
        rat_eq(rat_mul(a, b), rat_mul(a2, b2)),
{
    assert((a.n * b.n) * (a2.d * b2.d) == (a.n * a2.d) * (b.n * b2.d)) by (nonlinear_arith);
    assert((a2.n * b2.n) * (a.d * b.d) == (a2.n * a.d) * (b2.n * b.d)) by (nonlinear_arith);
}

proof fn lemma_rat_add_congr_r(a: Ratio, b: Ratio, b2: Ratio)
    requires
        rat_eq(b, b2),
    ensures
        rat_eq(rat_add(a, b), rat_add(a, b2)),
        rat_eq(rat_sub(a, b), rat_sub(a, b2)),
{
    let an: int = a.n;
    let ad: int = a.d;
    let bn: int = b.n;
    let bd: int = b.d;
    let cn: int = b2.n;
    let cd: int = b2.d;
    assert((an * bd + bn * ad) * (ad * cd) == an * bd * (ad * cd) + bn * ad * (ad * cd))
        by (nonlinear_arith);
    assert((an * cd + cn * ad) * (ad * bd) == an * cd * (ad * bd) + cn * ad * (ad * bd))
        by (nonlinear_arith);
    assert((an * bd - bn * ad) * (ad * cd) == an * bd * (ad * cd) - bn * ad * (ad * cd))
        by (nonlinear_arith);
    assert((an * cd - cn * ad) * (ad * bd) == an * cd * (ad * bd) - cn * ad * (ad * bd))
        by (nonlinear_arith);
    assert(an * bd * (ad * cd) == an * cd * (ad * bd)) by (nonlinear_arith);
    assert(bn * ad * (ad * cd) == (bn * cd) * (ad * ad)) by (nonlinear_arith);
    assert(cn * ad * (ad * bd) == (cn * bd) * (ad * ad)) by (nonlinear_arith);
    assert((bn * cd) * (ad * ad) == (cn * bd) * (ad * ad)) by (nonlinear_arith)
        requires
            bn * cd == cn * bd;
}

proof fn lemma_rat_add_congr_l(a: Ratio, a2: Ratio, b: Ratio)
    requires
        rat_eq(a, a2),
    ensures
        rat_eq(rat_add(a, b), rat_add(a2, b)),
        rat_eq(rat_sub(a, b), rat_sub(a2, b)),
{
    let an: int = a.n;
    let ad: int = a.d;
    let cn: int = a2.n;
    let cd: int = a2.d;
    let bn: int = b.n;
    let bd: int = b.d;
    assert((an * bd + bn * ad) * (cd * bd) == an * bd * (cd * bd) + bn * ad * (cd * bd))
        by (nonlinear_arith);
    assert((cn * bd + bn * cd) * (ad * bd) == cn * bd * (ad * bd) + bn * cd * (ad * bd))
        by (nonlinear_arith);
    assert((an * bd - bn * ad) * (cd * bd) == an * bd * (cd * bd) - bn * ad * (cd * bd))
        by (nonlinear_arith);
    assert((cn * bd - bn * cd) * (ad * bd) == cn * bd * (ad * bd) - bn * cd * (ad * bd))
        by (nonlinear_arith);
    assert(an * bd * (cd * bd) == (an * cd) * (bd * bd)) by (nonlinear_arith);
    assert(cn * bd * (ad * bd) == (cn * ad) * (bd * bd)) by (nonlinear_arith);
    assert((an * cd) * (bd * bd) == (cn * ad) * (bd * bd)) by (nonlinear_arith)
        requires
            an * cd == cn * ad;
    assert(bn * ad * (cd * bd) == bn * cd * (ad * bd)) by (nonlinear_arith);
}

/// Addition respects value equality in either argument.
pub proof fn lemma_rat_add_congr(a: Ratio, a2: Ratio, b: Ratio, b2: Ratio)
    requires
        rat_eq(a, a2),
        rat_eq(b, b2),
        a.d >= 1,
        a2.d >= 1,
        b.d >= 1,
        b2.d >= 1,
    ensures
        rat_eq(rat_add(a, b), rat_add(a2, b2)),
        rat_eq(rat_sub(a, b), rat_sub(a2, b2)),
{
    lemma_rat_add_congr_r(a, b, b2);
    lemma_rat_add_congr_l(a, a2, b2);
    assert(rat_add(a, b2).d >= 1 && rat_sub(a, b2).d >= 1) by (nonlinear_arith)
        requires
            a.d >= 1,
            b2.d >= 1;
    lemma_rat_eq_trans(rat_add(a, b), rat_add(a, b2), rat_add(a2, b2));
    lemma_rat_eq_trans(rat_sub(a, b), rat_sub(a, b2), rat_sub(a2, b2));
}

/// Subtraction respects value equality in either argument.
pub proof fn lemma_rat_sub_congr(a: Ratio, a2: Ratio, b: Ratio, b2: Ratio)
    requires
        rat_eq(a, a2),
        rat_eq(b, b2),
        a.d >= 1,
        a2.d >= 1,
        b.d >= 1,
        b2.d >= 1,
    ensures
        rat_eq(rat_sub(a, b), rat_sub(a2, b2)),
{
    lemma_rat_add_congr(a, a2, b, b2);
}

/// Adding a zero-valued rational changes nothing.
pub proof fn lemma_rat_add_zero(a: Ratio, z: Ratio) by (nonlinear_arith)
    requires
        rat_eq(z, rat_of_int(0)),
    ensures
        rat_eq(rat_add(a, z), a),
        rat_eq(rat_sub(a, z), a),
{
}

/// Multiplying by a zero-valued rational gives zero.
pub proof fn lemma_rat_mul_zero(a: Ratio, z: Ratio)
    requires
        rat_eq(z, rat_of_int(0)),
    ensures
        rat_eq(rat_mul(a, z), rat_of_int(0)),
{
    assert(a.n * z.n == 0) by (nonlinear_arith)
        requires
            z.n == 0,
    ;
}

/// Multiplication distributes over subtraction of values.
pub proof fn lemma_rat_mul_sub_distrib(a: Ratio, x: Ratio, y: Ratio)
    ensures
        rat_eq(rat_mul(a, rat_sub(x, y)), rat_sub(rat_mul(a, x), rat_mul(a, y))),
{
    let p = a.n;
    let q = a.d;
    let b = x.n;
    let c = x.d;
    let e = y.n;
    let f = y.d;
    assert((p * (b * f - e * c)) * ((q * c) * (q * f)) == (p * (b * f)) * ((q * c) * (q * f)) - (p
        * (e * c)) * ((q * c) * (q * f))) by (nonlinear_arith);
    assert(((p * b) * (q * f) - (p * e) * (q * c)) * (q * (c * f)) == ((p * b) * (q * f)) * (q * (c
        * f)) - ((p * e) * (q * c)) * (q * (c * f))) by (nonlinear_arith);
    assert((p * (b * f)) * ((q * c) * (q * f)) == ((p * b) * (q * f)) * (q * (c * f)))
        by (nonlinear_arith);
    assert((p * (e * c)) * ((q * c) * (q * f)) == ((p * e) * (q * c)) * (q * (c * f)))
        by (nonlinear_arith);
}

/// Equal values have numerators of the same sign, given positive
/// denominators.
pub proof fn lemma_rat_sign_transfer(x: Ratio, y: Ratio) by (nonlinear_arith)
    requires
        rat_eq(x, y),
        rat_pos(x),
        rat_pos(y),
    ensures
        (x.n >= 1) == (y.n >= 1),
        (x.n >= 0) == (y.n >= 0),
        (x.n < 0) == (y.n < 0),
{
}

/// Sums and products of non-negative values are non-negative; products
/// of positive values are positive.
pub proof fn lemma_rat_sign_ops(a: Ratio, b: Ratio) by (nonlinear_arith)
    requires
        rat_pos(a),
        rat_pos(b),
    ensures
        a.n >= 0 && b.n >= 0 ==> rat_add(a, b).n >= 0,
        a.n >= 1 && b.n >= 1 ==> rat_mul(a, b).n >= 1,
        a.n >= 0 && b.n >= 0 ==> rat_mul(a, b).n >= 0,
        a.n >= 1 && b.n >= 1 ==> rat_div(a, b).n >= 1,
{
}

/// Division respects value equality in the dividend.
pub proof fn lemma_rat_div_congr_l(a: Ratio, a2: Ratio, b: Ratio)
    requires
        rat_eq(a, a2),
    ensures
        rat_eq(rat_div(a, b), rat_div(a2, b)),
{
    assert((a.n * b.d) * (a2.d * b.n) == (a.n * a2.d) * (b.d * b.n)) by (nonlinear_arith);
    assert((a2.n * b.d) * (a.d * b.n) == (a2.n * a.d) * (b.d * b.n)) by (nonlinear_arith);
}

/// Addition of values associates.
pub proof fn lemma_rat_add_assoc(a: Ratio, b: Ratio, c: Ratio)
    ensures
        rat_eq(rat_add(rat_add(a, b), c), rat_add(a, rat_add(b, c))),
{
    assert((a.n * b.d + b.n * a.d) * c.d == (a.n * b.d) * c.d + (b.n * a.d) * c.d)
        by (nonlinear_arith);
    assert((b.n * c.d + c.n * b.d) * a.d == (b.n * c.d) * a.d + (c.n * b.d) * a.d)
        by (nonlinear_arith);
    assert((a.n * b.d) * c.d == a.n * (b.d * c.d)) by (nonlinear_arith);
    assert((b.n * a.d) * c.d == (b.n * c.d) * a.d) by (nonlinear_arith);
    assert(c.n * (a.d * b.d) == (c.n * b.d) * a.d) by (nonlinear_arith);
    assert((a.d * b.d) * c.d == a.d * (b.d * c.d)) by (nonlinear_arith);
    assert(rat_add(rat_add(a, b), c).n == rat_add(a, rat_add(b, c)).n);
    assert(rat_add(rat_add(a, b), c).d == rat_add(a, rat_add(b, c)).d);
}

/// Moving a subtraction across an addition of values.
pub proof fn lemma_rat_add_sub_shuffle(v: Ratio, p: Ratio, c: Ratio)
    ensures
        rat_eq(rat_sub(rat_add(v, p), c), rat_add(v, rat_sub(p, c))),
{
    assert((v.n * p.d + p.n * v.d) * c.d == (v.n * p.d) * c.d + (p.n * v.d) * c.d)
        by (nonlinear_arith);
    assert((p.n * c.d - c.n * p.d) * v.d == (p.n * c.d) * v.d - (c.n * p.d) * v.d)
        by (nonlinear_arith);
    assert((v.n * p.d) * c.d == v.n * (p.d * c.d)) by (nonlinear_arith);
    assert((p.n * v.d) * c.d == (p.n * c.d) * v.d) by (nonlinear_arith);
    assert(c.n * (v.d * p.d) == (c.n * p.d) * v.d) by (nonlinear_arith);
    assert((v.d * p.d) * c.d == v.d * (p.d * c.d)) by (nonlinear_arith);
    assert(rat_sub(rat_add(v, p), c).n == rat_add(v, rat_sub(p, c)).n);
    assert(rat_sub(rat_add(v, p), c).d == rat_add(v, rat_sub(p, c)).d);
}

/// Combining positive-denominator values keeps the denominator
/// positive.
pub proof fn lemma_rat_ops_pos(a: Ratio, b: Ratio) by (nonlinear_arith)
    requires
        rat_pos(a),
        rat_pos(b),
    ensures
        rat_pos(rat_add(a, b)),
        rat_pos(rat_sub(a, b)),
        rat_pos(rat_mul(a, b)),
{
}

/// A production rate or amount: an exact rational with a positive
/// denominator, held in 64-bit parts.
#[derive(Debug, Clone, Copy)]
pub struct Rat {
    num: i64,
    den: i64,
}

impl View for Rat {
    type V = Ratio;

    closed spec fn view(&self) -> Ratio {
        Ratio { n: self.num as int, d: self.den as int }
    }
}

impl Rat {
    /// The denominator is positive and the numerator is symmetric around
    /// zero, so negation never overflows.
    pub closed spec fn wf(self) -> bool {
        1 <= self.den && -0x7fff_ffff_ffff_ffff <= self.num
    }

    pub proof fn lemma_wf_pos(self)
        requires
            self.wf(),
        ensures
            rat_pos(self@),
            rat_fits(self@),
    {
    }

    pub fn new(num: i64, den: i64) -> (r: Rat)
        requires
            1 <= den,
            -0x7fff_ffff_ffff_ffff <= num,
        ensures
            r.wf(),
            r@ == (Ratio { n: num as int, d: den as int }),
    {
        Rat { num, den }
    }

    pub fn from_int(v: i64) -> (r: Rat)
        requires
            -0x7fff_ffff_ffff_ffff <= v,
        ensures
            r.wf(),
            r@ == rat_of_int(v as int),
    {
        Rat { num: v, den: 1 }
    }

    pub fn zero() -> (r: Rat)
        ensures
            r.wf(),
            r@ == rat_of_int(0),
    {
        Rat { num: 0, den: 1 }
    }

    pub fn one() -> (r: Rat)
        ensures
            r.wf(),
            r@ == rat_of_int(1),
    {
        Rat { num: 1, den: 1 }
    }

    /// Executable test of well-formedness, for hosts that cannot
    /// evaluate the ghost predicate.
    pub fn is_wf(&self) -> (r: bool)
        ensures
            r == self.wf(),
    {
        self.den >= 1 && self.num >= -0x7fff_ffff_ffff_ffff
    }

    pub fn num(&self) -> (r: i64)
        ensures
            r as int == self@.n,
    {
        self.num
    }

    pub fn den(&self) -> (r: i64)
        ensures
            r as int == self@.d,
    {
        self.den
    }

    pub fn neg(&self) -> (r: Rat)
        requires
            self.wf(),
        ensures
            r.wf(),
            r@ == rat_neg(self@),
    {
        Rat { num: -self.num, den: self.den }
    }

    /// Exact comparison of the denoted values.
    pub fn le(&self, other: &Rat) -> (r: bool)
        requires
            self.wf(),
            other.wf(),
        ensures
            r == rat_le(self@, other@),
    {
        proof {
            lemma_parts_bounds(self@.n, self@.d, other@.n, other@.d);
        }
        (self.num as i128) * (other.den as i128) <= (other.num as i128) * (self.den as i128)
    }

    /// Exact strict comparison of the denoted values.
    pub fn lt(&self, other: &Rat) -> (r: bool)
        requires
            self.wf(),
            other.wf(),
        ensures
            r == rat_lt(self@, other@),
    {
        proof {
            lemma_parts_bounds(self@.n, self@.d, other@.n, other@.d);
        }
        (self.num as i128) * (other.den as i128) < (other.num as i128) * (self.den as i128)
    }

    /// Exact equality of the denoted values.
    pub fn same_value(&self, other: &Rat) -> (r: bool)
        requires
            self.wf(),
            other.wf(),
        ensures
            r == rat_eq(self@, other@),
    {
        proof {
            lemma_parts_bounds(self@.n, self@.d, other@.n, other@.d);
        }
        (self.num as i128) * (other.den as i128) == (other.num as i128) * (self.den as i128)
    }

    /// Builds the reduced 64-bit representative of `n / d`, or `None`
    /// when even the reduced fraction does not fit.
    fn make(n: i128, d: i128) -> (r: Option<Rat>)
        requires
            1 <= d,
            -0x7fff_ffff_ffff_ffff_ffff_ffff_ffff_ffff <= n,
        ensures
            r is Some <==> rat_fits(rat_norm(Ratio { n: n as int, d: d as int })),
            r matches Some(v) ==> v.wf() && rat_pos(v@) && rat_eq(
                v@,
                Ratio { n: n as int, d: d as int },
            ) && v@ == rat_norm(Ratio { n: n as int, d: d as int }),
            -0x7fff_ffff_ffff_ffff <= n <= 0x7fff_ffff_ffff_ffff && d <= 0x7fff_ffff_ffff_ffff
                ==> r is Some,
    {
        let neg: bool = n < 0;
        let m: u128 = if neg { (-n) as u128 } else { n as u128 };
        let du: u128 = d as u128;
        let g: u128 = gcd_u128(m, du);
        proof {
            lemma_gcd_pos(m as nat, du as nat);
            lemma_gcd_divides(m as nat, du as nat);
        }
        let m2: u128 = m / g;
        let d2: u128 = du / g;
        proof {
            lemma_reduce_by_divisor(m as int, du as int, g as int, m2 as int, d2 as int);
            assert(m as int == int_abs(n as int));
            assert(g as int == gcd(int_abs(n as int) as nat, d as nat) as int);
            assert(d2 as int == rat_norm(Ratio { n: n as int, d: d as int }).d);
            if neg {
                let kn = choose|k: int| m as int == #[trigger] ((g as int) * k);
                lemma_div_multiples_vanish(kn, g as int);
                lemma_div_multiples_vanish(-kn, g as int);
                assert((g as int) * (-kn) == -((g as int) * kn)) by (nonlinear_arith);
                assert(n as int == (g as int) * (-kn));
                assert(m2 as int == kn);
                assert((n as int) / (g as int) == -kn);
                assert(-(m2 as int) == rat_norm(Ratio { n: n as int, d: d as int }).n);
            } else {
                assert(m2 as int == rat_norm(Ratio { n: n as int, d: d as int }).n);
            }
        }
        if m2 <= 0x7fff_ffff_ffff_ffffu128 && d2 <= 0x7fff_ffff_ffff_ffffu128 {
            let num: i64 = if neg { -(m2 as i64) } else { m2 as i64 };
            let den: i64 = d2 as i64;
            proof {
                assert((m2 as int) * (d as int) == (m as int) * (d2 as int));
                if neg {
                    assert((-(m2 as int)) * (d as int) == (-(m as int)) * (d2 as int))
                        by (nonlinear_arith)
                        requires
                            (m2 as int) * (d as int) == (m as int) * (d2 as int);
                }
            }
            Some(Rat { num, den })
        } else {
            None
        }
    }

    /// Checked exact sum.
    pub fn add(&self, other: &Rat) -> (r: Option<Rat>)
        requires
            self.wf(),
            other.wf(),
        ensures
            r is Some <==> rat_fits(rat_norm(rat_add(self@, other@))),
            r matches Some(v) ==> v.wf() && rat_pos(v@) && rat_eq(v@, rat_add(self@, other@))
                && v@ == rat_norm(rat_add(self@, other@)),
            rat_small(self@) && rat_small(other@) ==> r is Some,
    {
        proof {
            lemma_parts_bounds(self@.n, self@.d, other@.n, other@.d);
        }
        let n: i128 = (self.num as i128) * (other.den as i128)
            + (other.num as i128) * (self.den as i128);
        let d: i128 = (self.den as i128) * (other.den as i128);
        Self::make(n, d)
    }

    /// Checked exact difference.
    pub fn sub(&self, other: &Rat) -> (r: Option<Rat>)
        requires
            self.wf(),
            other.wf(),
        ensures
            r is Some <==> rat_fits(rat_norm(rat_sub(self@, other@))),
            r matches Some(v) ==> v.wf() && rat_pos(v@) && rat_eq(v@, rat_sub(self@, other@))
                && v@ == rat_norm(rat_sub(self@, other@)),
            rat_small(self@) && rat_small(other@) ==> r is Some,
    {
        proof {
            lemma_parts_bounds(self@.n, self@.d, other@.n, other@.d);
        }
        let n: i128 = (self.num as i128) * (other.den as i128)
            - (other.num as i128) * (self.den as i128);
        let d: i128 = (self.den as i128) * (other.den as i128);
        Self::make(n, d)
    }

    /// Checked exact product.
    pub fn mul(&self, other: &Rat) -> (r: Option<Rat>)
        requires
            self.wf(),
            other.wf(),
        ensures
            r is Some <==> rat_fits(rat_norm(rat_mul(self@, other@))),
            r matches Some(v) ==> v.wf() && rat_pos(v@) && rat_eq(v@, rat_mul(self@, other@))
                && v@ == rat_norm(rat_mul(self@, other@)),
            rat_small(self@) && rat_small(other@) ==> r is Some,
    {
        proof {
            lemma_parts_bounds(self@.n, self@.d, other@.n, other@.d);
        }
        let n: i128 = (self.num as i128) * (other.num as i128);
        let d: i128 = (self.den as i128) * (other.den as i128);
        Self::make(n, d)
    }

    /// Checked exact quotient; `None` exactly on a zero divisor or when
    /// the reduced result does not fit.
    pub fn div(&self, other: &Rat) -> (r: Option<Rat>)
        requires
            self.wf(),
            other.wf(),
        ensures
            r is Some <==> other@.n != 0 && rat_fits(rat_norm(rat_quot(self@, other@))),
            r matches Some(v) ==> v.wf() && rat_pos(v@) && rat_eq(v@, rat_div(self@, other@))
                && v@ == rat_norm(rat_quot(self@, other@)),
            rat_small(self@) && rat_small(other@) && other@.n != 0 ==> r is Some,
    {
        if other.num == 0 {
            return None;
        }
        proof {
            lemma_parts_bounds(self@.n, self@.d, other@.n, other@.d);
        }
        let n0: i128 = (self.num as i128) * (other.den as i128);
        let d0: i128 = (other.num as i128) * (self.den as i128);
        let (n, d): (i128, i128) = if other.num > 0 { (n0, d0) } else { (-n0, -d0) };
        let r = Self::make(n, d);
        proof {
            if r is Some {
                let v = r->Some_0;
                lemma_div_flip(self@, other@, v@, n as int, d as int);
            }
        }
        r
    }
}

/// Bounds on the products of two well-formed rationals' parts: enough to
/// rule out 128-bit overflow always, and 64-bit overflow for small inputs.
proof fn lemma_parts_bounds(an: int, ad: int, bn: int, bd: int) by (nonlinear_arith)
    requires
        -0x7fff_ffff_ffff_ffff <= an <= 0x7fff_ffff_ffff_ffff,
        -0x7fff_ffff_ffff_ffff <= bn <= 0x7fff_ffff_ffff_ffff,
        1 <= ad <= 0x7fff_ffff_ffff_ffff,
        1 <= bd <= 0x7fff_ffff_ffff_ffff,
    ensures
        1 <= ad * bd <= 0x7fff_ffff_ffff_ffff * 0x7fff_ffff_ffff_ffff,
        -0x7fff_ffff_ffff_ffff * 0x7fff_ffff_ffff_ffff <= an * bd
            <= 0x7fff_ffff_ffff_ffff * 0x7fff_ffff_ffff_ffff,
        -0x7fff_ffff_ffff_ffff * 0x7fff_ffff_ffff_ffff <= bn * ad
            <= 0x7fff_ffff_ffff_ffff * 0x7fff_ffff_ffff_ffff,
        -0x7fff_ffff_ffff_ffff * 0x7fff_ffff_ffff_ffff <= an * bn
            <= 0x7fff_ffff_ffff_ffff * 0x7fff_ffff_ffff_ffff,
        bn >= 1 ==> bn * ad >= 1,
        bn <= -1 ==> bn * ad <= -1,
        -0x4000_0000 <= an <= 0x4000_0000 && -0x4000_0000 <= bn <= 0x4000_0000
            && ad <= 0x4000_0000 && bd <= 0x4000_0000 ==> {
            &&& -0x7fff_ffff_ffff_ffff <= an * bd + bn * ad <= 0x7fff_ffff_ffff_ffff
            &&& -0x7fff_ffff_ffff_ffff <= an * bd - bn * ad <= 0x7fff_ffff_ffff_ffff
            &&& -0x7fff_ffff_ffff_ffff <= an * bn <= 0x7fff_ffff_ffff_ffff
            &&& ad * bd <= 0x7fff_ffff_ffff_ffff
            &&& -0x7fff_ffff_ffff_ffff <= an * bd <= 0x7fff_ffff_ffff_ffff
            &&& -0x7fff_ffff_ffff_ffff <= bn * ad <= 0x7fff_ffff_ffff_ffff
        },
{
}

/// Negating both parts of the raw quotient restores `rat_eq` with
/// `rat_div` when the divisor's numerator is negative.
proof fn lemma_div_flip(a: Ratio, b: Ratio, v: Ratio, n: int, d: int) by (nonlinear_arith)
    requires
        b.n != 0,
        b.n > 0 ==> n == a.n * b.d && d == b.n * a.d,
        b.n < 0 ==> n == -(a.n * b.d) && d == -(b.n * a.d),
        v.n * d == n * v.d,
    ensures
        rat_eq(v, rat_div(a, b)),
{
}

/// Euclid's algorithm on 128-bit unsigned integers.
fn gcd_u128(a0: u128, b0: u128) -> (g: u128)
    ensures
        g as nat == gcd(a0 as nat, b0 as nat),
{
    let mut a: u128 = a0;
    let mut b: u128 = b0;
    while b != 0
        invariant
            gcd(a as nat, b as nat) == gcd(a0 as nat, b0 as nat),
        decreases b,
    {
        let t: u128 = a % b;
        a = b;
        b = t;
    }
    a
}

} // verus!
