//! Exact rational scalars.
//!
//! Masses and coordinates are rationals `num / den` with a positive
//! denominator.  Executable operations are checked: they return `None` when
//! the exact (unreduced) result does not fit the `i64` fields, and otherwise
//! return exactly the rational that the corresponding specification-level
//! operation describes.

use vstd::prelude::*;

verus! {

/// A rational number in specification space: numerator `n` over denominator `d`.
#[verifier::ext_equal]
pub ghost struct Q {
    pub n: int,
    pub d: int,
}

/// A well-formed rational has a positive denominator.
pub open spec fn q_wf(a: Q) -> bool {
    a.d > 0
}

pub open spec fn q_zero() -> Q {
    Q { n: 0, d: 1 }
}

/// Exact sum: numerators cross-multiplied, denominators multiplied.
pub open spec fn q_add(a: Q, b: Q) -> Q {
    Q { n: a.n * b.d + b.n * a.d, d: a.d * b.d }
}

/// Exact product.
pub open spec fn q_mul(a: Q, b: Q) -> Q {
    Q { n: a.n * b.n, d: a.d * b.d }
}

/// Exact quotient; meaningful only when `b.n != 0`.
pub open spec fn q_div(a: Q, b: Q) -> Q {
    Q { n: a.n * b.d, d: a.d * b.n }
}

/// Quotient normalised to a positive denominator (for `q_wf(a)` and `b.n != 0`).
pub open spec fn q_div_norm(a: Q, b: Q) -> Q {
    if b.n < 0 {
        Q { n: -(a.n * b.d), d: -(a.d * b.n) }
    } else {
        Q { n: a.n * b.d, d: a.d * b.n }
    }
}

/// The two rationals denote the same value: cross-products agree.
pub open spec fn q_eqv(a: Q, b: Q) -> bool {
    a.n * b.d == b.n * a.d
}

pub open spec fn fits_i64(x: int) -> bool {
    -0x8000000000000000 <= x && x <= 0x7fffffffffffffff
}

/// The exact sum is representable in a `Rat`.
pub open spec fn q_add_fits(a: Q, b: Q) -> bool {
    fits_i64(q_add(a, b).n) && q_add(a, b).d <= 0x7fffffffffffffff
}

/// The exact product is representable in a `Rat`.
pub open spec fn q_mul_fits(a: Q, b: Q) -> bool {
    fits_i64(q_mul(a, b).n) && q_mul(a, b).d <= 0x7fffffffffffffff
}

/// The normalised exact quotient is representable in a `Rat`.
pub open spec fn q_div_fits(a: Q, b: Q) -> bool {
    fits_i64(q_div_norm(a, b).n) && q_div_norm(a, b).d <= 0x7fffffffffffffff
}

/// What `Rat::checked_add` returns, at the level of `Q`.
pub open spec fn q_add_c(a: Q, b: Q) -> Option<Q> {
    if q_add_fits(a, b) {
        Some(q_add(a, b))
    } else {
        None
    }
}

/// What `Rat::checked_mul` returns, at the level of `Q`.
pub open spec fn q_mul_c(a: Q, b: Q) -> Option<Q> {
    if q_mul_fits(a, b) {
        Some(q_mul(a, b))
    } else {
        None
    }
}

/// What `Rat::checked_div` returns, at the level of `Q`.
pub open spec fn q_div_c(a: Q, b: Q) -> Option<Q> {
    if q_div_fits(a, b) {
        Some(q_div_norm(a, b))
    } else {
        None
    }
}

/// An exact rational scalar: `num / den` with `den > 0`.
#[derive(Clone, Copy, Debug, PartialEq, Eq, Structural)]
pub struct Rat {
    pub num: i64,
    pub den: i64,
}

impl View for Rat {
    type V = Q;

    open spec fn view(&self) -> Q {
        Q { n: self.num as int, d: self.den as int }
    }
}

/// The product of two `i64`-ranged values stays well inside `i128`.
proof fn lemma_i64_prod_bounds(a: int, b: int)
    by (nonlinear_arith)
    requires
        -0x8000000000000000 <= a && a <= 0x7fffffffffffffff,
        -0x8000000000000000 <= b && b <= 0x7fffffffffffffff,
    ensures
        -0x40000000000000000000000000000000 <= a * b,
        a * b <= 0x40000000000000000000000000000000,
{
}

/// The product of an `i64` numerator and a positive `i64` denominator is
/// bounded away from the `i128` limits far enough that two such products can
/// still be added.
proof fn lemma_num_den_prod_bounds(a: int, b: int)
    by (nonlinear_arith)
    requires
        -0x8000000000000000 <= a && a <= 0x7fffffffffffffff,
        1 <= b && b <= 0x7fffffffffffffff,
    ensures
        -0x3fffffffffffffff8000000000000000 <= a * b,
        a * b <= 0x3fffffffffffffff8000000000000000,
{
}

proof fn lemma_pos_prod(a: int, b: int)
    by (nonlinear_arith)
    requires
        a >= 1,
        b >= 1,
    ensures
        a * b >= 1,
{
}

/// Sign of a product with a positive left factor.
proof fn lemma_prod_sign(d: int, a: int)
    by (nonlinear_arith)
    requires
        d >= 1,
    ensures
        a < 0 ==> d * a < 0,
        a > 0 ==> d * a > 0,
        a == 0 ==> d * a == 0,
{
}

impl Rat {
    pub open spec fn wf(self) -> bool {
        q_wf(self@)
    }

    pub fn new(num: i64, den: i64) -> (r: Rat)
        requires
            den > 0,
        ensures
            r.wf(),
            r@ == (Q { n: num as int, d: den as int }),
    {
        Rat { num, den }
    }

    pub fn zero() -> (r: Rat)
        ensures
            r.wf(),
            r@ == q_zero(),
    {
        Rat { num: 0, den: 1 }
    }

    pub fn is_zero(self) -> (r: bool)
        requires
            self.wf(),
        ensures
            r == (self@.n == 0),
    {
        self.num == 0
    }

    /// Exact sum, or `None` when it does not fit.
    pub fn checked_add(self, other: Rat) -> (r: Option<Rat>)
        requires
            self.wf(),
            other.wf(),
        ensures
            match r {
                Some(c) => c.wf() && q_add_c(self@, other@) == Some(c@),
                None => q_add_c(self@, other@) is None,
            },
    {
        proof {
            lemma_num_den_prod_bounds(self.num as int, other.den as int);
            lemma_num_den_prod_bounds(other.num as int, self.den as int);
            lemma_i64_prod_bounds(self.den as int, other.den as int);
            lemma_pos_prod(self.den as int, other.den as int);
        }
        let n: i128 = self.num as i128 * other.den as i128 + other.num as i128 * self.den as i128;
        let d: i128 = self.den as i128 * other.den as i128;
        if -0x8000000000000000i128 <= n && n <= 0x7fffffffffffffffi128 && d <= 0x7fffffffffffffffi128 {
            Some(Rat { num: n as i64, den: d as i64 })
        } else {
            None
        }
    }

    /// Exact product, or `None` when it does not fit.
    pub fn checked_mul(self, other: Rat) -> (r: Option<Rat>)
        requires
            self.wf(),
            other.wf(),
        ensures
            match r {
                Some(c) => c.wf() && q_mul_c(self@, other@) == Some(c@),
                None => q_mul_c(self@, other@) is None,
            },
    {
        proof {
            lemma_i64_prod_bounds(self.num as int, other.num as int);
            lemma_i64_prod_bounds(self.den as int, other.den as int);
            lemma_pos_prod(self.den as int, other.den as int);
        }
        let n: i128 = self.num as i128 * other.num as i128;
        let d: i128 = self.den as i128 * other.den as i128;
        if -0x8000000000000000i128 <= n && n <= 0x7fffffffffffffffi128 && d <= 0x7fffffffffffffffi128 {
            Some(Rat { num: n as i64, den: d as i64 })
        } else {
            None
        }
    }

    /// Exact quotient with a positive denominator, or `None` when it does not fit.
    pub fn checked_div(self, other: Rat) -> (r: Option<Rat>)
        requires
            self.wf(),
            other.wf(),
            other@.n != 0,
        ensures
            match r {
                Some(c) => c.wf() && q_div_c(self@, other@) == Some(c@),
                None => q_div_c(self@, other@) is None,
            },
    {
        proof {
            lemma_i64_prod_bounds(self.num as int, other.den as int);
            lemma_i64_prod_bounds(self.den as int, other.num as int);
            lemma_prod_sign(self.den as int, other.num as int);
        }
        let mut n: i128 = self.num as i128 * other.den as i128;
        let mut d: i128 = self.den as i128 * other.num as i128;
        if d < 0 {
            n = -n;
            d = -d;
        }
        if -0x8000000000000000i128 <= n && n <= 0x7fffffffffffffffi128 && d <= 0x7fffffffffffffffi128 {
            Some(Rat { num: n as i64, den: d as i64 })
        } else {
            None
        }
    }
}

} // verus!
