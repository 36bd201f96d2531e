//! `Dec`: the library's carrier for a `rust_decimal::Decimal`.
//!
//! A `Dec` holds the same two plain values as a `Decimal` (a signed
//! mantissa of at most 96 bits and a scale of at most 28 fractional
//! digits).  Its mathematical value is `mantissa * 10^-scale`; in
//! contracts it is counted in units of `10^-28`, so that every value is
//! an integer (`val`).  Additions, subtractions, remainders and
//! comparisons are computed by `rust_decimal` through the trusted
//! wrappers at the end of this file.

use vstd::prelude::*;

verus! {

/// Largest mantissa magnitude of a `Decimal` (2^96 - 1).
pub const MAX_MANTISSA: i128 = 79228162514264337593543950335i128;

/// Largest scale of a `Decimal`.
pub const MAX_SCALE: u32 = 28u32;

/// `10^n`.
pub open spec fn pow10(n: nat) -> int
    decreases n,
{
    if n == 0 {
        1
    } else {
        10 * pow10((n - 1) as nat)
    }
}

/// The value of one unit in the last digit at scale `s`, counted in `10^-28`.
pub open spec fn unit(s: nat) -> int {
    if s <= 28 {
        pow10((28 - s) as nat)
    } else {
        1
    }
}

/// A value `v` (counted in `10^-28`) has a magnitude that a 96-bit
/// mantissa can hold at scale `s`.
pub open spec fn fits_at(v: int, s: nat) -> bool {
    -((MAX_MANTISSA + 1) * unit(s)) < v && v < (MAX_MANTISSA + 1) * unit(s)
}

pub open spec fn max_nat(a: nat, b: nat) -> nat {
    if a >= b {
        a
    } else {
        b
    }
}

pub open spec fn abs_int(v: int) -> int {
    if v < 0 {
        -v
    } else {
        v
    }
}

/// Remainder of a truncating division: it takes the sign of `a`.
pub open spec fn rem_trunc(a: int, b: int) -> int {
    if a >= 0 {
        a % abs_int(b)
    } else {
        -((-a) % abs_int(b))
    }
}

pub proof fn lemma_pow10_pos(n: nat)
    ensures
        pow10(n) > 0,
    decreases n,
{
    if n > 0 {
        lemma_pow10_pos((n - 1) as nat);
    }
}

pub proof fn lemma_pow10_mono(n: nat, m: nat)
    requires
        n <= m,
    ensures
        pow10(n) <= pow10(m),
    decreases m,
{
    if n < m {
        lemma_pow10_mono(n, (m - 1) as nat);
        lemma_pow10_pos((m - 1) as nat);
    }
}

pub proof fn lemma_pow10_28()
    ensures
        pow10(28) == 10000000000000000000000000000,
{
    reveal_with_fuel(pow10, 29);
}

pub proof fn lemma_pow10_29()
    ensures
        pow10(29) == 100000000000000000000000000000,
        MAX_MANTISSA < pow10(29),
{
    reveal_with_fuel(pow10, 30);
}

pub proof fn lemma_unit_pos(s: nat)
    ensures
        unit(s) > 0,
{
    if s <= 28 {
        lemma_pow10_pos((28 - s) as nat);
    }
}

/// A larger scale has a finer unit.
pub proof fn lemma_unit_antimono(s: nat, t: nat)
    requires
        s <= t,
    ensures
        unit(t) <= unit(s),
{
    lemma_pow10_pos(0);
    if t <= 28 {
        lemma_pow10_mono((28 - t) as nat, (28 - s) as nat);
    } else if s <= 28 {
        lemma_pow10_mono(0, (28 - s) as nat);
    }
}

/// `|v| < 10^(27 - m)`: a value with this much headroom below the limit of
/// scale `m`.
pub open spec fn below_headroom(v: int, m: nat) -> bool {
    abs_int(v) < pow10((55 - m) as nat)
}

/// A value below ten times the headroom of scale `m` is representable at `m`.
pub proof fn lemma_headroom_fits(v: int, m: nat, n: int)
    requires
        m <= 27,
        0 <= n <= 10,
        abs_int(v) < n * pow10((55 - m) as nat),
    ensures
        fits_at(v, m),
{
    lemma_pow10_pos((55 - m) as nat);
    lemma_pow10_pos((28 - m) as nat);
    lemma_pow10_add(28, (28 - m) as nat);
    assert(28 + (28 - m) as nat == (56 - m) as nat);
    assert(pow10((56 - m) as nat) == 10 * pow10((55 - m) as nat));
    reveal_with_fuel(pow10, 29);
    assert(n * pow10((55 - m) as nat) <= 10 * pow10((55 - m) as nat)) by (nonlinear_arith)
        requires
            n <= 10,
            pow10((55 - m) as nat) > 0,
    ;
    assert(pow10(28) * pow10((28 - m) as nat) < (MAX_MANTISSA + 1) * pow10((28 - m) as nat))
        by (nonlinear_arith)
        requires
            pow10(28) < MAX_MANTISSA + 1,
            pow10((28 - m) as nat) > 0,
    ;
}

/// What fits at a scale also fits at every smaller scale.
pub proof fn lemma_fits_at_smaller_scale(v: int, s: nat, t: nat)
    requires
        s <= t,
        fits_at(v, t),
    ensures
        fits_at(v, s),
{
    lemma_unit_antimono(s, t);
    assert((MAX_MANTISSA + 1) * unit(t) <= (MAX_MANTISSA + 1) * unit(s)) by (nonlinear_arith)
        requires
            unit(t) <= unit(s),
    ;
}

/// The mantissa and scale that `+` of `rust_decimal::Decimal` returns for
/// two operands given by mantissa and scale.
pub uninterp spec fn decimal_sum(a_mantissa: int, a_scale: nat, b_mantissa: int, b_scale: nat) -> (
    int,
    nat,
);

/// The mantissa and scale that `-` of `rust_decimal::Decimal` returns.
pub uninterp spec fn decimal_difference(
    a_mantissa: int,
    a_scale: nat,
    b_mantissa: int,
    b_scale: nat,
) -> (int, nat);

/// The mantissa and scale that `*` of `rust_decimal::Decimal` returns.
pub uninterp spec fn decimal_product(
    a_mantissa: int,
    a_scale: nat,
    b_mantissa: int,
    b_scale: nat,
) -> (int, nat);

/// The mantissa and scale that `checked_add` of `rust_decimal::Decimal`
/// returns (`None` where `+` would panic).
pub uninterp spec fn decimal_checked_sum(a_mantissa: int, a_scale: nat, b_mantissa: int, b_scale: nat) -> Option<
    (int, nat),
>;

/// The mantissa and scale that `checked_div` of `rust_decimal::Decimal`
/// returns (`None` where `/` would panic).
pub uninterp spec fn decimal_quotient(a_mantissa: int, a_scale: nat, b_mantissa: int, b_scale: nat) -> Option<
    (int, nat),
>;

/// `10^(n + m) == 10^n * 10^m`.
pub proof fn lemma_pow10_add(n: nat, m: nat)
    ensures
        pow10(n + m) == pow10(n) * pow10(m),
    decreases n,
{
    if n > 0 {
        lemma_pow10_add((n - 1) as nat, m);
        assert(pow10(n + m) == 10 * pow10((n - 1 + m) as nat));
        assert(10 * (pow10((n - 1) as nat) * pow10(m)) == (10 * pow10((n - 1) as nat)) * pow10(m))
            by (nonlinear_arith);
    }
}

/// Two units multiply to `10^28` times the unit of the summed scale.
pub proof fn lemma_unit_mul(s: nat, t: nat)
    requires
        s + t <= 28,
    ensures
        unit(s) * unit(t) == pow10(28) * unit(s + t),
{
    lemma_pow10_add((28 - s) as nat, (28 - t) as nat);
    lemma_pow10_add(28, (28 - s - t) as nat);
    assert((28 - s) + (28 - t) == 28 + (28 - s - t));
}

/// `n / d` rounded to the nearest integer, ties to the even one (`d > 0`).
pub open spec fn div_round_half_even(n: nat, d: nat) -> nat
    recommends
        d > 0,
{
    let q = n / d;
    let r = n % d;
    if 2 * r > d || (2 * r == d && q % 2 == 1) {
        q + 1
    } else {
        q
    }
}

/// The value (counted in `10^-28`) of `v` rounded to `dp` fractional
/// digits, ties to even (`dp <= 28`).
pub open spec fn round_half_even_val(v: int, dp: nat) -> int {
    let step = unit(dp);
    if v >= 0 {
        div_round_half_even(v as nat, step as nat) * step
    } else {
        -(div_round_half_even((-v) as nat, step as nat) * step)
    }
}

/// A decimal number with the representation of `rust_decimal::Decimal`.
#[derive(Clone, Copy, Debug)]
pub struct Dec {
    mantissa: i128,
    scale: u32,
}

impl Dec {
    #[verifier::type_invariant]
    spec fn inv(self) -> bool {
        &&& self.scale <= MAX_SCALE
        &&& -MAX_MANTISSA <= self.mantissa <= MAX_MANTISSA
    }

    /// The value, counted in `10^-28`.
    pub closed spec fn val(self) -> int {
        self.mantissa * unit(self.scale as nat)
    }

    /// The scale (number of fractional digits).
    pub closed spec fn sc(self) -> nat {
        self.scale as nat
    }

    /// The mantissa.
    pub closed spec fn man(self) -> int {
        self.mantissa as int
    }

    /// `a + b` is computed exactly: its magnitude fits at the larger of the two scales.
    pub open spec fn add_exact(a: Dec, b: Dec) -> bool {
        fits_at(a.val() + b.val(), max_nat(a.sc(), b.sc()))
    }

    /// `a - b` is computed exactly: its magnitude fits at the larger of the two scales.
    pub open spec fn sub_exact(a: Dec, b: Dec) -> bool {
        fits_at(a.val() - b.val(), max_nat(a.sc(), b.sc()))
    }

    /// `a * b` is representable without rounding: the product of the
    /// mantissas fits in 96 bits and the scales add up to at most 28.
    pub open spec fn mul_fits(a: Dec, b: Dec) -> bool {
        &&& -MAX_MANTISSA <= a.man() * b.man() <= MAX_MANTISSA
        &&& a.sc() + b.sc() <= MAX_SCALE
    }

    /// The magnitude of `a + b` is below `10^27`, so `+` does not overflow.
    pub open spec fn add_in_range(a: Dec, b: Dec) -> bool {
        -pow10(55) < a.val() + b.val() < pow10(55)
    }

    /// The magnitude of `a - b` is below `10^27`, so `-` does not overflow.
    pub open spec fn sub_in_range(a: Dec, b: Dec) -> bool {
        -pow10(55) < a.val() - b.val() < pow10(55)
    }

    /// The magnitude of `a * b` is below `10^27`, so `*` does not overflow.
    pub open spec fn mul_in_range(a: Dec, b: Dec) -> bool {
        -pow10(83) < a.val() * b.val() < pow10(83)
    }

    /// What `+` of `rust_decimal::Decimal` returns.
    pub closed spec fn sum_of(a: Dec, b: Dec) -> Dec {
        let p = decimal_sum(a.man(), a.sc(), b.man(), b.sc());
        Dec { mantissa: p.0 as i128, scale: p.1 as u32 }
    }

    /// What `-` of `rust_decimal::Decimal` returns.
    pub closed spec fn difference_of(a: Dec, b: Dec) -> Dec {
        let p = decimal_difference(a.man(), a.sc(), b.man(), b.sc());
        Dec { mantissa: p.0 as i128, scale: p.1 as u32 }
    }

    /// What `*` of `rust_decimal::Decimal` returns.
    pub closed spec fn product_of(a: Dec, b: Dec) -> Dec {
        let p = decimal_product(a.man(), a.sc(), b.man(), b.sc());
        Dec { mantissa: p.0 as i128, scale: p.1 as u32 }
    }

    /// What `checked_add` of `rust_decimal::Decimal` returns.
    pub closed spec fn checked_sum_of(a: Dec, b: Dec) -> Option<Dec> {
        match decimal_checked_sum(a.man(), a.sc(), b.man(), b.sc()) {
            Some(p) => Some(Dec { mantissa: p.0 as i128, scale: p.1 as u32 }),
            None => None,
        }
    }

    /// What `checked_div` of `rust_decimal::Decimal` returns.
    pub closed spec fn quotient_of(a: Dec, b: Dec) -> Option<Dec> {
        match decimal_quotient(a.man(), a.sc(), b.man(), b.sc()) {
            Some(p) => Some(Dec { mantissa: p.0 as i128, scale: p.1 as u32 }),
            None => None,
        }
    }

    /// The decimal with mantissa `m` and scale `s`.
    pub closed spec fn of_parts(m: i128, s: u32) -> Dec {
        Dec { mantissa: m, scale: s }
    }

    /// `Decimal::new(num, scale)`.
    pub fn new(num: i64, scale: u32) -> (r: Dec)
        requires
            scale <= MAX_SCALE,
        ensures
            r.man() == num,
            r.sc() == scale,
            r.val() == num * unit(scale as nat),
            r == Dec::of_parts(num as i128, scale),
    {
        Dec { mantissa: num as i128, scale }
    }

    /// `Decimal::from_i128_with_scale(num, scale)`.
    pub fn from_i128_with_scale(num: i128, scale: u32) -> (r: Dec)
        requires
            scale <= MAX_SCALE,
            -MAX_MANTISSA <= num <= MAX_MANTISSA,
        ensures
            r.man() == num,
            r.sc() == scale,
            r.val() == num * unit(scale as nat),
    {
        Dec { mantissa: num, scale }
    }

    /// `Decimal::from(n)`: an integer.
    pub fn from_int(n: i64) -> (r: Dec)
        ensures
            r.man() == n,
            r.sc() == 0,
            r.val() == n * unit(0),
    {
        Dec { mantissa: n as i128, scale: 0 }
    }

    /// `Decimal::ZERO`.
    pub closed spec fn zero_value() -> Dec {
        Dec { mantissa: 0, scale: 0 }
    }

    /// `Decimal::ZERO`.
    pub fn zero() -> (r: Dec)
        ensures
            r.val() == 0,
            r.sc() == 0,
            r.man() == 0,
            r == Dec::zero_value(),
    {
        Dec { mantissa: 0, scale: 0 }
    }

    /// `Decimal::ONE`.
    pub closed spec fn one_value() -> Dec {
        Dec { mantissa: 1, scale: 0 }
    }

    /// `Decimal::ONE`.
    pub fn one() -> (r: Dec)
        ensures
            r.val() == unit(0),
            r.sc() == 0,
            r.man() == 1,
            r == Dec::one_value(),
    {
        Dec { mantissa: 1, scale: 0 }
    }

    pub fn mantissa(&self) -> (r: i128)
        ensures
            r == self.man(),
    {
        self.mantissa
    }

    pub fn scale(&self) -> (r: u32)
        ensures
            r == self.sc(),
            r <= MAX_SCALE,
    {
        proof {
            use_type_invariant(self);
        }
        self.scale
    }

    /// Whether the value is zero.
    pub fn is_zero(&self) -> (r: bool)
        ensures
            r == (self.val() == 0),
    {
        proof {
            lemma_unit_pos(self.scale as nat);
            let u = unit(self.scale as nat);
            let m = self.mantissa as int;
            assert(m != 0 ==> m * u != 0) by (nonlinear_arith)
                requires
                    u > 0,
            ;
        }
        self.mantissa == 0
    }

    /// Whether the value is below zero.
    pub fn is_negative(&self) -> (r: bool)
        ensures
            r == (self.val() < 0),
    {
        proof {
            lemma_unit_pos(self.scale as nat);
            let u = unit(self.scale as nat);
            let m = self.mantissa as int;
            assert(m < 0 <==> m * u < 0) by (nonlinear_arith)
                requires
                    u > 0,
            ;
        }
        self.mantissa < 0
    }

    /// The absolute value (`Decimal::abs`): same scale, mantissa without sign.
    pub fn abs(&self) -> (r: Dec)
        ensures
            r.val() == abs_int(self.val()),
            r.sc() == self.sc(),
    {
        proof {
            use_type_invariant(self);
            let u = unit(self.scale as nat);
            let m = self.mantissa as int;
            assert((-m) * u == -(m * u)) by (nonlinear_arith);
            lemma_unit_pos(self.scale as nat);
            assert(m < 0 <==> m * u < 0) by (nonlinear_arith)
                requires
                    u > 0,
            ;
        }
        if self.mantissa < 0 {
            Dec { mantissa: -self.mantissa, scale: self.scale }
        } else {
            *self
        }
    }

    /// `self < other`.
    pub fn lt(&self, other: &Dec) -> (r: bool)
        ensures
            r == (self.val() < other.val()),
    {
        decimal_lt(self, other)
    }

    /// `self <= other`.
    pub fn le(&self, other: &Dec) -> (r: bool)
        ensures
            r == (self.val() <= other.val()),
    {
        !decimal_lt(other, self)
    }

    /// `self > other`.
    pub fn gt(&self, other: &Dec) -> (r: bool)
        ensures
            r == (self.val() > other.val()),
    {
        decimal_lt(other, self)
    }

    /// `self >= other`.
    pub fn ge(&self, other: &Dec) -> (r: bool)
        ensures
            r == (self.val() >= other.val()),
    {
        !decimal_lt(self, other)
    }

    /// Equality of values (`1.0 == 1.00`), as `Decimal`'s `==`.
    pub fn value_eq(&self, other: &Dec) -> (r: bool)
        ensures
            r == (self.val() == other.val()),
    {
        !decimal_lt(self, other) && !decimal_lt(other, self)
    }

    /// `self + other`, where the sum is representable at the larger scale.
    pub fn add(&self, other: &Dec) -> (r: Dec)
        requires
            Dec::add_exact(*self, *other) || Dec::add_in_range(*self, *other),
        ensures
            r == Dec::sum_of(*self, *other),
            -unit(0) <= r.val() - (self.val() + other.val()) <= unit(0),
            Dec::add_exact(*self, *other) ==> r.val() == self.val() + other.val() && r.sc()
                <= max_nat(self.sc(), other.sc()),
            Dec::add_exact(*self, *other) ==> (self.man() == 0 ==> r == *other),
            Dec::add_exact(*self, *other) ==> (self.man() != 0 && other.man() == 0 ==> r == *self),
            Dec::add_exact(*self, *other) ==> (self.man() != 0 && other.man() != 0 ==> r.sc()
                == max_nat(self.sc(), other.sc())),
    {
        decimal_add(self, other)
    }

    /// `self - other`, where the difference is representable at the larger scale.
    pub fn sub(&self, other: &Dec) -> (r: Dec)
        requires
            Dec::sub_exact(*self, *other) || Dec::sub_in_range(*self, *other),
        ensures
            r == Dec::difference_of(*self, *other),
            -unit(0) <= r.val() - (self.val() - other.val()) <= unit(0),
            Dec::sub_exact(*self, *other) ==> r.val() == self.val() - other.val() && r.sc()
                <= max_nat(self.sc(), other.sc()),
            Dec::sub_exact(*self, *other) ==> (self.man() == 0 ==> r.man() == -other.man() && r.sc()
                == other.sc()),
            Dec::sub_exact(*self, *other) ==> (self.man() != 0 && other.man() == 0 ==> r == *self),
            Dec::sub_exact(*self, *other) ==> (self.man() != 0 && other.man() != 0 ==> r.sc()
                == max_nat(self.sc(), other.sc())),
    {
        decimal_sub(self, other)
    }

    /// `self * other`: exact when `mul_fits`, otherwise rounded by the
    /// crate (`product_of`).
    pub fn mul(&self, other: &Dec) -> (r: Dec)
        requires
            Dec::mul_fits(*self, *other) || Dec::mul_in_range(*self, *other),
        ensures
            r == Dec::product_of(*self, *other),
            self.man() == 0 || other.man() == 0 ==> r.val() == 0,
            self.val() == 0 || other.val() == 0 ==> r.val() == 0,
            Dec::mul_fits(*self, *other) ==> r.val() * pow10(28) == self.val() * other.val()
                && r.sc() <= self.sc() + other.sc(),
            -pow10(56) <= r.val() * pow10(28) - self.val() * other.val() <= pow10(56),
    {
        let r = decimal_mul(self, other);
        proof {
            lemma_unit_pos(self.scale as nat);
            lemma_unit_pos(other.scale as nat);
            let su = unit(self.scale as nat);
            let ou = unit(other.scale as nat);
            let sm = self.mantissa as int;
            let om = other.mantissa as int;
            assert(sm * su == 0 ==> sm == 0) by (nonlinear_arith)
                requires
                    su > 0,
            ;
            assert(om * ou == 0 ==> om == 0) by (nonlinear_arith)
                requires
                    ou > 0,
            ;
            if self.mantissa == 0 || other.mantissa == 0 {
                let rm = r.mantissa as int;
                let ru = unit(r.scale as nat);
                assert(rm * ru == 0) by (nonlinear_arith)
                    requires
                        rm == 0,
                ;
                assert(r.val() == 0);
                let am = self.mantissa as int;
                let bm = other.mantissa as int;
                let u = unit(self.scale as nat);
                let v = unit(other.scale as nat);
                assert((am * u) * (bm * v) == 0) by (nonlinear_arith)
                    requires
                        am == 0 || bm == 0,
                ;
                assert(r.val() * pow10(28) == 0);
            } else if Dec::mul_fits(*self, *other) {
                lemma_unit_mul(self.scale as nat, other.scale as nat);
                let u = unit(self.scale as nat);
                let v = unit(other.scale as nat);
                let w = unit((self.scale + other.scale) as nat);
                let am = self.mantissa as int;
                let bm = other.mantissa as int;
                assert(r.val() == am * bm * w);
                assert((am * u) * (bm * v) == (am * bm) * (u * v)) by (nonlinear_arith);
                assert((am * bm * w) * pow10(28) == (am * bm) * (pow10(28) * w))
                    by (nonlinear_arith);
                assert(self.val() == am * u);
                assert(other.val() == bm * v);
                assert(r.val() * pow10(28) == self.val() * other.val());
            }
        }
        r
    }

    /// `self.round_dp(dp)`: unchanged when it has at most `dp` fractional
    /// digits, else rounded to `dp` digits, ties to even.
    pub fn round_dp(&self, dp: u32) -> (r: Dec)
        requires
            dp <= MAX_SCALE,
        ensures
            self.sc() <= dp ==> r == *self,
            self.sc() > dp ==> r.sc() == dp && r.val() == round_half_even_val(self.val(), dp as nat),
    {
        decimal_round_dp(self, dp)
    }

    /// `Decimal::min`: `other` when it is smaller, else `self`.
    pub fn min(&self, other: &Dec) -> (r: Dec)
        ensures
            r == Dec::min_of(*self, *other),
    {
        if self.gt(other) {
            *other
        } else {
            *self
        }
    }

    /// `Decimal::max`: `other` when it is larger, else `self`.
    pub fn max(&self, other: &Dec) -> (r: Dec)
        ensures
            r == Dec::max_of(*self, *other),
    {
        if self.lt(other) {
            *other
        } else {
            *self
        }
    }

    /// What `Decimal::min` returns.
    pub open spec fn min_of(a: Dec, b: Dec) -> Dec {
        if a.val() > b.val() {
            b
        } else {
            a
        }
    }

    /// What `Decimal::max` returns.
    pub open spec fn max_of(a: Dec, b: Dec) -> Dec {
        if a.val() < b.val() {
            b
        } else {
            a
        }
    }

    /// `self.checked_add(other)`: exact whenever the sum is representable at
    /// the larger scale.
    pub fn checked_add(&self, other: &Dec) -> (r: Option<Dec>)
        ensures
            r == Dec::checked_sum_of(*self, *other),
            r is Some ==> r->0 == Dec::sum_of(*self, *other),
            Dec::add_exact(*self, *other) ==> r is Some && r->0.val() == self.val() + other.val()
                && r->0.sc() <= max_nat(self.sc(), other.sc()),
    {
        let r = decimal_checked_add(self, other);
        proof {
            if r is Some {
                let q = r->0;
                assert(q == Dec { mantissa: q.mantissa, scale: q.scale });
            }
        }
        r
    }

    /// `self.checked_div(other)`: `None` for a zero divisor, zero for a zero
    /// dividend, else the crate's rounded quotient or `None` where it
    /// reports an overflow (`quotient_of`).
    pub fn checked_div(&self, other: &Dec) -> (r: Option<Dec>)
        ensures
            r == Dec::quotient_of(*self, *other),
            other.val() == 0 ==> r is None,
            self.val() == 0 && other.val() != 0 ==> r == Some(Dec::zero_value()),
    {
        proof {
            lemma_unit_pos(self.scale as nat);
            lemma_unit_pos(other.scale as nat);
            let u = unit(self.scale as nat);
            let v = unit(other.scale as nat);
            let m = self.mantissa as int;
            let n = other.mantissa as int;
            assert(m * u == 0 ==> m == 0) by (nonlinear_arith)
                requires
                    u > 0,
            ;
            assert(n * v == 0 ==> n == 0) by (nonlinear_arith)
                requires
                    v > 0,
            ;
        }
        let r = decimal_checked_div(self, other);
        proof {
            if r is Some {
                let q = r->0;
                assert(q == Dec { mantissa: q.mantissa, scale: q.scale });
            }
        }
        r
    }

    /// Whether the value is representable at scale `s` (`fits_at`).
    pub fn fits_at_scale(&self, s: u32) -> (r: bool)
        requires
            s <= MAX_SCALE,
        ensures
            r == fits_at(self.val(), s as nat),
    {
        proof {
            use_type_invariant(self);
            lemma_unit_pos(self.scale as nat);
            lemma_unit_pos(s as nat);
        }
        let m: i128 = if self.mantissa < 0 {
            -self.mantissa
        } else {
            self.mantissa
        };
        let ghost u = unit(self.scale as nat);
        let ghost us = unit(s as nat);
        proof {
            assert(abs_int(self.val()) == m * u) by (nonlinear_arith)
                requires
                    self.val() == self.mantissa * u,
                    m == abs_int(self.mantissa as int),
                    u > 0,
            ;
            assert(fits_at(self.val(), s as nat) == (abs_int(self.val()) < (MAX_MANTISSA + 1) * us));
        }
        if s <= self.scale {
            proof {
                lemma_unit_antimono(s as nat, self.scale as nat);
                assert(m * u < (MAX_MANTISSA + 1) * us) by (nonlinear_arith)
                    requires
                        0 <= m <= MAX_MANTISSA,
                        0 < u <= us,
                ;
            }
            return true;
        }
        let k: u32 = s - self.scale;
        proof {
            lemma_pow10_add(k as nat, (28 - s) as nat);
            assert(u == pow10(k as nat) * us);
            assert((m * u < (MAX_MANTISSA + 1) * us) == (m * pow10(k as nat) < MAX_MANTISSA + 1))
                by (nonlinear_arith)
                requires
                    u == pow10(k as nat) * us,
                    us > 0,
            ;
            assert(m * pow10(0) == m);
        }
        let mut p: i128 = m;
        let mut j: u32 = 0;
        while j < k
            invariant
                j <= k,
                k <= 28,
                0 <= m <= MAX_MANTISSA,
                0 <= p <= MAX_MANTISSA,
                p == m * pow10(j as nat),
                fits_at(self.val(), s as nat) == (m * pow10(k as nat) < MAX_MANTISSA + 1),
            decreases k - j,
        {
            if p > MAX_MANTISSA / 10 {
                proof {
                    lemma_pow10_mono((j + 1) as nat, k as nat);
                    assert(pow10((j + 1) as nat) == 10 * pow10(j as nat));
                    assert(m * pow10((j + 1) as nat) == 10 * p) by (nonlinear_arith)
                        requires
                            p == m * pow10(j as nat),
                            pow10((j + 1) as nat) == 10 * pow10(j as nat),
                    ;
                    assert(m * pow10((j + 1) as nat) <= m * pow10(k as nat)) by (nonlinear_arith)
                        requires
                            m >= 0,
                            pow10((j + 1) as nat) <= pow10(k as nat),
                    ;
                    assert(10 * p > MAX_MANTISSA);
                }
                return false;
            }
            proof {
                assert(pow10((j + 1) as nat) == 10 * pow10(j as nat));
                assert(m * pow10((j + 1) as nat) == 10 * p) by (nonlinear_arith)
                    requires
                        p == m * pow10(j as nat),
                        pow10((j + 1) as nat) == 10 * pow10(j as nat),
                ;
            }
            p = p * 10;
            j = j + 1;
        }
        true
    }

    /// Whether `|self| < 10^(27 - m)` (`below_headroom`).
    pub fn within_headroom(&self, m: u32) -> (r: bool)
        requires
            m <= 27,
        ensures
            r == below_headroom(self.val(), m as nat),
    {
        self.magnitude_below(27 - m)
    }

    /// Both values are below the headroom of their larger scale, so their
    /// sum and their difference are both computed exactly.
    pub fn sum_surely_exact(&self, other: &Dec) -> (r: bool)
        ensures
            r ==> Dec::add_exact(*self, *other) && Dec::sub_exact(*self, *other),
    {
        let m: u32 = if self.scale() >= other.scale() {
            self.scale()
        } else {
            other.scale()
        };
        if m > 27 {
            return false;
        }
        let ok = self.within_headroom(m) && other.within_headroom(m);
        proof {
            if ok {
                lemma_headroom_fits(self.val() + other.val(), m as nat, 2);
                lemma_headroom_fits(self.val() - other.val(), m as nat, 2);
            }
        }
        ok
    }

    /// Both values are below `10^13` in magnitude, so their product is
    /// below `10^26` and `*` does not overflow.
    pub fn product_surely_in_range(&self, other: &Dec) -> (r: bool)
        ensures
            r ==> Dec::mul_in_range(*self, *other),
    {
        let ok = self.magnitude_below(13) && other.magnitude_below(13);
        proof {
            if ok {
                let a = self.val();
                let b = other.val();
                lemma_pow10_add(41, 41);
                lemma_pow10_mono(82, 83);
                assert(abs_int(a * b) == abs_int(a) * abs_int(b)) by (nonlinear_arith);
                assert(abs_int(a) * abs_int(b) < pow10(41) * pow10(41)) by (nonlinear_arith)
                    requires
                        0 <= abs_int(a) < pow10(41),
                        0 <= abs_int(b) < pow10(41),
                ;
            }
        }
        ok
    }

    /// Whether the magnitude of the value is below `10^k`.
    pub fn magnitude_below(&self, k: u32) -> (r: bool)
        requires
            k <= 28,
        ensures
            r == (abs_int(self.val()) < pow10(28 + k as nat)),
    {
        proof {
            use_type_invariant(self);
        }
        let e: u32 = k + self.scale;
        let m: i128 = if self.mantissa < 0 {
            -self.mantissa
        } else {
            self.mantissa
        };
        proof {
            lemma_pow10_add((k + self.scale) as nat, (28 - self.scale) as nat);
            lemma_unit_pos(self.scale as nat);
            let u = unit(self.scale as nat);
            let p = pow10((k + self.scale) as nat);
            assert(abs_int(self.val()) == m * u) by (nonlinear_arith)
                requires
                    self.val() == self.mantissa * u,
                    m == abs_int(self.mantissa as int),
                    u > 0,
            ;
            assert((m * u < p * u) == (m < p)) by (nonlinear_arith)
                requires
                    u > 0,
            ;
        }
        if e > 29 {
            proof {
                lemma_pow10_mono(29, e as nat);
                lemma_pow10_29();
            }
            return true;
        }
        let mut p: i128 = 1;
        let mut i: u32 = 0;
        while i < e
            invariant
                i <= e,
                e <= 29,
                p == pow10(i as nat),
            decreases e - i,
        {
            proof {
                lemma_pow10_mono(i as nat, 28);
                lemma_pow10_28();
                lemma_pow10_pos(i as nat);
                assert(0 < p <= 10000000000000000000000000000i128);
            }
            p = p * 10;
            i = i + 1;
        }
        m < p
    }

    /// `self % other` (remainder of the truncating division, sign of `self`).
    pub fn rem(&self, other: &Dec) -> (r: Dec)
        requires
            other.val() != 0,
        ensures
            r.val() == rem_trunc(self.val(), other.val()),
            r.sc() <= max_nat(self.sc(), other.sc()),
    {
        decimal_rem(self, other)
    }
}

/// Sum of the values of `s` (counted in `10^-28`).
pub open spec fn sum_vals(s: Seq<Dec>) -> int
    decreases s.len(),
{
    if s.len() == 0 {
        0
    } else {
        sum_vals(s.drop_last()) + s.last().val()
    }
}

pub proof fn lemma_sum_push(s: Seq<Dec>, x: Dec)
    ensures
        sum_vals(s.push(x)) == sum_vals(s) + x.val(),
{
    assert(s.push(x).drop_last() =~= s);
}

/// The largest scale among `s` (zero when empty).
pub open spec fn max_sc(s: Seq<Dec>) -> nat
    decreases s.len(),
{
    if s.len() == 0 {
        0
    } else {
        max_nat(max_sc(s.drop_last()), s.last().sc())
    }
}

/// Every running total `base + s[0] + ... + s[k-1]` fits at the largest
/// scale involved, so adding the items one by one is exact.
pub open spec fn running_sums_fit(base: Dec, s: Seq<Dec>) -> bool {
    forall|k: int|
        0 <= k <= s.len() ==> #[trigger] fits_at(
            base.val() + sum_vals(s.take(k)),
            max_nat(base.sc(), max_sc(s)),
        )
}

pub proof fn lemma_max_sc_take(s: Seq<Dec>, k: int)
    requires
        0 <= k <= s.len(),
    ensures
        max_sc(s.take(k)) <= max_sc(s),
        k < s.len() ==> s[k].sc() <= max_sc(s),
    decreases s.len(),
{
    if s.len() > 0 {
        if k == s.len() {
            assert(s.take(k) =~= s);
        } else {
            assert(s.take(k) =~= s.drop_last().take(k));
            if k < s.len() - 1 {
                lemma_max_sc_take(s.drop_last(), k);
                assert(s[k] == s.drop_last()[k]);
            }
        }
    }
}

/// `base + items[0] + ... + items[n-1]`, added one by one with `+`.
pub fn sum_onto(base: Dec, items: &Vec<Dec>) -> (r: Dec)
    requires
        running_sums_fit(base, items@),
    ensures
        r.val() == base.val() + sum_vals(items@),
        r.sc() <= max_nat(base.sc(), max_sc(items@)),
{
    let ghost m = max_nat(base.sc(), max_sc(items@));
    let mut acc = base;
    let mut i: usize = 0;
    while i < items.len()
        invariant
            i <= items.len(),
            running_sums_fit(base, items@),
            m == max_nat(base.sc(), max_sc(items@)),
            acc.val() == base.val() + sum_vals(items@.take(i as int)),
            acc.sc() <= m,
        decreases items.len() - i,
    {
        proof {
            lemma_max_sc_take(items@, i as int);
            assert(items@.take(i as int + 1).drop_last() =~= items@.take(i as int));
            assert(fits_at(base.val() + sum_vals(items@.take(i as int + 1)), m));
            lemma_fits_at_smaller_scale(
                acc.val() + items@[i as int].val(),
                max_nat(acc.sc(), items@[i as int].sc()),
                m,
            );
        }
        acc = acc.add(&items[i]);
        i = i + 1;
    }
    assert(items@.take(items.len() as int) =~= items@);
    acc
}

/// Every running total `s[0] + ... + s[k-1]` fits at the largest scale of `s`.
pub open spec fn running_totals_fit(s: Seq<Dec>) -> bool {
    forall|k: int| 0 <= k <= s.len() ==> #[trigger] fits_at(sum_vals(s.take(k)), max_sc(s))
}

/// `s[0] + ... + s[n-1]` starting from zero (what `Iterator::sum` gives).
pub fn sum_all(items: &Vec<Dec>) -> (r: Dec)
    requires
        running_totals_fit(items@),
    ensures
        r.val() == sum_vals(items@),
{
    let z = Dec::zero();
    assert(running_sums_fit(z, items@)) by {
        assert forall|k: int| 0 <= k <= items@.len() implies #[trigger] fits_at(
            z.val() + sum_vals(items@.take(k)),
            max_nat(z.sc(), max_sc(items@)),
        ) by {
            assert(fits_at(sum_vals(items@.take(k)), max_sc(items@)));
        }
    }
    sum_onto(z, items)
}

impl PartialEq for Dec {
    fn eq(&self, other: &Dec) -> (r: bool) {
        self.value_eq(other)
    }
}

impl vstd::std_specs::cmp::PartialEqSpecImpl for Dec {
    open spec fn obeys_eq_spec() -> bool {
        true
    }

    open spec fn eq_spec(&self, other: &Dec) -> bool {
        self.val() == other.val()
    }
}

/// Calls `<` of `rust_decimal::Decimal`, which compares the two values
/// exactly whatever their scales (`Decimal::cmp`).
#[verifier::external_body]
fn decimal_lt(a: &Dec, b: &Dec) -> (r: bool)
    ensures
        r == (a.val() < b.val()),
{
    let x = rust_decimal::Decimal::from_i128_with_scale(a.mantissa, a.scale);
    let y = rust_decimal::Decimal::from_i128_with_scale(b.mantissa, b.scale);
    x < y
}

/// Calls `+` of `rust_decimal::Decimal` (`decimal_sum` names what it
/// returns).  A zero operand returns the other operand unchanged;
/// otherwise the scales are aligned to the larger one, and when the
/// aligned sum fits in 96 bits it is returned exactly at that scale.
/// Otherwise digits are dropped with rounding, which moves the value by
/// less than one.  It panics only when even the integer part overflows 96
/// bits, which the inputs admitted here rule out.
#[verifier::external_body]
fn decimal_add(a: &Dec, b: &Dec) -> (r: Dec)
    requires
        Dec::add_exact(*a, *b) || Dec::add_in_range(*a, *b),
    ensures
        (r.man(), r.sc()) == decimal_sum(a.man(), a.sc(), b.man(), b.sc()),
        -unit(0) <= r.val() - (a.val() + b.val()) <= unit(0),
        Dec::add_exact(*a, *b) ==> r.val() == a.val() + b.val() && r.sc() <= max_nat(a.sc(), b.sc()),
        Dec::add_exact(*a, *b) ==> (a.man() == 0 ==> r == *b),
        Dec::add_exact(*a, *b) ==> (a.man() != 0 && b.man() == 0 ==> r == *a),
        Dec::add_exact(*a, *b) ==> (a.man() != 0 && b.man() != 0 ==> r.sc() == max_nat(
            a.sc(),
            b.sc(),
        )),
{
    let x = rust_decimal::Decimal::from_i128_with_scale(a.mantissa, a.scale);
    let y = rust_decimal::Decimal::from_i128_with_scale(b.mantissa, b.scale);
    let z = x + y;
    Dec { mantissa: z.mantissa(), scale: z.scale() }
}

/// Calls `-` of `rust_decimal::Decimal` (`decimal_difference` names what
/// it returns): the code path of `+` with the sign of `b` flipped, so
/// `0 - b` is `b` negated, `a - 0` is `a`, and otherwise the exact
/// difference at the larger scale when it fits; otherwise rounded by less
/// than one; no panic on the inputs admitted here.
#[verifier::external_body]
fn decimal_sub(a: &Dec, b: &Dec) -> (r: Dec)
    requires
        Dec::sub_exact(*a, *b) || Dec::sub_in_range(*a, *b),
    ensures
        (r.man(), r.sc()) == decimal_difference(a.man(), a.sc(), b.man(), b.sc()),
        -unit(0) <= r.val() - (a.val() - b.val()) <= unit(0),
        Dec::sub_exact(*a, *b) ==> r.val() == a.val() - b.val() && r.sc() <= max_nat(a.sc(), b.sc()),
        Dec::sub_exact(*a, *b) ==> (a.man() == 0 ==> r.man() == -b.man() && r.sc() == b.sc()),
        Dec::sub_exact(*a, *b) ==> (a.man() != 0 && b.man() == 0 ==> r == *a),
        Dec::sub_exact(*a, *b) ==> (a.man() != 0 && b.man() != 0 ==> r.sc() == max_nat(
            a.sc(),
            b.sc(),
        )),
{
    let x = rust_decimal::Decimal::from_i128_with_scale(a.mantissa, a.scale);
    let y = rust_decimal::Decimal::from_i128_with_scale(b.mantissa, b.scale);
    let z = x - y;
    Dec { mantissa: z.mantissa(), scale: z.scale() }
}

/// Calls `Decimal::checked_add` (`decimal_checked_sum` names what it
/// returns).  It runs the same addition as `+`, so a `Some` holds what `+`
/// returns (`decimal_sum`); `None` is the overflow where `+` would panic.
/// When the sum is representable at the larger scale the result is `Some`
/// of the exact sum.
#[verifier::external_body]
fn decimal_checked_add(a: &Dec, b: &Dec) -> (r: Option<Dec>)
    ensures
        r is None <==> decimal_checked_sum(a.man(), a.sc(), b.man(), b.sc()) is None,
        r is Some ==> (r->0.man(), r->0.sc()) == decimal_checked_sum(a.man(), a.sc(), b.man(), b.sc())->0,
        r is Some ==> (r->0.man(), r->0.sc()) == decimal_sum(a.man(), a.sc(), b.man(), b.sc()),
        Dec::add_exact(*a, *b) ==> r is Some && r->0.val() == a.val() + b.val()
            && r->0.sc() <= max_nat(a.sc(), b.sc()),
{
    let x = rust_decimal::Decimal::from_i128_with_scale(a.mantissa, a.scale);
    let y = rust_decimal::Decimal::from_i128_with_scale(b.mantissa, b.scale);
    match x.checked_add(y) {
        Some(z) => Some(Dec { mantissa: z.mantissa(), scale: z.scale() }),
        None => None,
    }
}

/// Calls `*` of `rust_decimal::Decimal`.  A zero operand gives zero at
/// scale 0.  Otherwise the mantissas are multiplied and the scales added;
/// when that product fits in 96 bits at a scale of at most 28 it is
/// returned as it is, else the crate drops digits with rounding
/// (`decimal_product` names the outcome, which this item leaves unsaid
/// beyond its being within one of the exact product).
/// It panics only when even the integer part does not fit in 96 bits,
/// which a product that fits, or a magnitude below `10^27`, rules out.
#[verifier::external_body]
fn decimal_mul(a: &Dec, b: &Dec) -> (r: Dec)
    requires
        Dec::mul_fits(*a, *b) || Dec::mul_in_range(*a, *b),
    ensures
        (r.man(), r.sc()) == decimal_product(a.man(), a.sc(), b.man(), b.sc()),
        a.man() == 0 || b.man() == 0 ==> r.man() == 0 && r.sc() == 0,
        a.man() != 0 && b.man() != 0 && Dec::mul_fits(*a, *b) ==> r.man() == a.man() * b.man()
            && r.sc() == a.sc() + b.sc(),
        -pow10(56) <= r.val() * pow10(28) - a.val() * b.val() <= pow10(56),
{
    let x = rust_decimal::Decimal::from_i128_with_scale(a.mantissa, a.scale);
    let y = rust_decimal::Decimal::from_i128_with_scale(b.mantissa, b.scale);
    let z = x * y;
    Dec { mantissa: z.mantissa(), scale: z.scale() }
}

/// Calls `Decimal::round_dp` (rounding strategy `MidpointNearestEven`): a
/// number with at most `dp` fractional digits is returned unchanged;
/// otherwise the magnitude is divided by `10^(scale - dp)`, rounded to the
/// nearest integer with ties to even, and returned at scale `dp` with the
/// sign kept.  It does not panic.
#[verifier::external_body]
fn decimal_round_dp(a: &Dec, dp: u32) -> (r: Dec)
    requires
        dp <= MAX_SCALE,
    ensures
        a.sc() <= dp ==> r == *a,
        a.sc() > dp ==> r.sc() == dp && r.val() == round_half_even_val(a.val(), dp as nat),
{
    let x = rust_decimal::Decimal::from_i128_with_scale(a.mantissa, a.scale);
    let z = x.round_dp(dp);
    Dec { mantissa: z.mantissa(), scale: z.scale() }
}

/// Calls `checked_div` of `rust_decimal::Decimal` (`decimal_quotient` names
/// what it returns).  The crate returns `None` for a zero divisor and
/// `Decimal::ZERO` for a zero dividend; otherwise the quotient rounded to
/// the digits that fit, or `None` when its integer part does not fit in 96
/// bits.  How the quotient is rounded is left unsaid.
#[verifier::external_body]
fn decimal_checked_div(a: &Dec, b: &Dec) -> (r: Option<Dec>)
    ensures
        r is None <==> decimal_quotient(a.man(), a.sc(), b.man(), b.sc()) is None,
        r is Some ==> (r->0.man(), r->0.sc()) == decimal_quotient(a.man(), a.sc(), b.man(), b.sc())->0,
        b.man() == 0 ==> r is None,
        a.man() == 0 && b.man() != 0 ==> r == Some(Dec::zero_value()),
{
    let x = rust_decimal::Decimal::from_i128_with_scale(a.mantissa, a.scale);
    let y = rust_decimal::Decimal::from_i128_with_scale(b.mantissa, b.scale);
    match x.checked_div(y) {
        Some(z) => Some(Dec { mantissa: z.mantissa(), scale: z.scale() }),
        None => None,
    }
}

/// Calls `%` of `rust_decimal::Decimal`: the exact remainder of the
/// truncating division, with the sign of the dividend, at a scale no larger
/// than the larger of the two.  It panics only on a zero divisor, which
/// `requires` leaves out.
#[verifier::external_body]
fn decimal_rem(a: &Dec, b: &Dec) -> (r: Dec)
    requires
        b.val() != 0,
    ensures
        r.val() == rem_trunc(a.val(), b.val()),
        r.sc() <= max_nat(a.sc(), b.sc()),
{
    let x = rust_decimal::Decimal::from_i128_with_scale(a.mantissa, a.scale);
    let y = rust_decimal::Decimal::from_i128_with_scale(b.mantissa, b.scale);
    let z = x % y;
    Dec { mantissa: z.mantissa(), scale: z.scale() }
}

} // verus!
