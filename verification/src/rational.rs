//! Exact rational arithmetic over machine integers.
//!
//! Every real-valued quantity of the simulator (coefficients, positions,
//! velocities, times) is a `Rat`: a fraction of two `i64` values with a
//! positive denominator. The mathematical model of a `Rat` is a `Frac`, a
//! pair of unbounded integers, and every operation states its result as the
//! exact `Frac` it produces. Operations whose exact result does not fit the
//! machine representation report that instead of returning a wrong value.

use vstd::prelude::*;

verus! {

/// Mathematical model of a rational number: an unbounded numerator and
/// denominator. Two `Frac` values denote the same rational when `q_eq`
/// holds of them; `q_wf` asks for a positive denominator.
pub ghost struct Frac {
    pub n: int,
    pub d: int,
}

pub open spec fn q_wf(a: Frac) -> bool {
    a.d >= 1
}

/// The integer `n` as a rational.
pub open spec fn q_int(n: int) -> Frac {
    Frac { n: n, d: 1 }
}

pub open spec fn q_add(a: Frac, b: Frac) -> Frac {
    Frac { n: a.n * b.d + b.n * a.d, d: a.d * b.d }
}

pub open spec fn q_neg(a: Frac) -> Frac {
    Frac { n: -a.n, d: a.d }
}

pub open spec fn q_sub(a: Frac, b: Frac) -> Frac {
    q_add(a, q_neg(b))
}

pub open spec fn q_mul(a: Frac, b: Frac) -> Frac {
    Frac { n: a.n * b.n, d: a.d * b.d }
}

/// Division, with the sign moved into the numerator so that the result is
/// well formed whenever `b.n != 0`.
pub open spec fn q_div(a: Frac, b: Frac) -> Frac {
    if b.n >= 0 {
        Frac { n: a.n * b.d, d: a.d * b.n }
    } else {
        Frac { n: -(a.n * b.d), d: -(a.d * b.n) }
    }
}

pub open spec fn q_abs(a: Frac) -> Frac {
    Frac { n: if a.n >= 0 { a.n } else { -a.n }, d: a.d }
}

/// Denotational equality: `a` and `b` stand for the same rational number.
pub open spec fn q_eq(a: Frac, b: Frac) -> bool {
    a.n * b.d == b.n * a.d
}

/// Order on rationals with positive denominators.
pub open spec fn q_le(a: Frac, b: Frac) -> bool {
    a.n * b.d <= b.n * a.d
}

pub open spec fn q_lt(a: Frac, b: Frac) -> bool {
    a.n * b.d < b.n * a.d
}

/// Whether an exact result fits the machine representation of `Rat`.
pub open spec fn q_fits(a: Frac) -> bool {
    -0x7fff_ffff_ffff_ffff <= a.n <= 0x7fff_ffff_ffff_ffff && 1 <= a.d
        <= 0x7fff_ffff_ffff_ffff
}

/// An exact rational number: `num / den` with `den >= 1`. The numerator
/// stays strictly above `i64::MIN` so that negation is total.
#[derive(Clone, Copy, Debug, PartialEq, Eq, Structural)]
pub struct Rat {
    num: i64,
    den: i64,
}

impl View for Rat {
    type V = Frac;

    closed spec fn view(&self) -> Frac {
        Frac { n: self.num as int, d: self.den as int }
    }
}

impl Rat {
    #[verifier::type_invariant]
    pub closed spec fn inv(self) -> bool {
        1 <= self.den && -0x7fff_ffff_ffff_ffff <= self.num
    }

    /// The rational `num / den`; refused when the denominator is not
    /// positive or the numerator is the one `i64` value whose negation
    /// does not fit.
    pub fn new(num: i64, den: i64) -> (r: Option<Rat>)
        ensures
            match r {
                Some(q) => q@ == (Frac { n: num as int, d: den as int }) && den >= 1 && num
                    > i64::MIN,
                None => den < 1 || num == i64::MIN,
            },
    {
        if den >= 1 && num > i64::MIN {
            Some(Rat { num, den })
        } else {
            None
        }
    }

    /// The integer `n` as a rational.
    pub fn from_int(n: i64) -> (r: Rat)
        requires
            n > i64::MIN,
        ensures
            r@ == q_int(n as int),
    {
        Rat { num: n, den: 1 }
    }

    pub fn zero() -> (r: Rat)
        ensures
            r@ == q_int(0),
    {
        Rat { num: 0, den: 1 }
    }

    pub fn numerator(&self) -> (r: i64)
        ensures
            r as int == self@.n,
    {
        self.num
    }

    pub fn denominator(&self) -> (r: i64)
        ensures
            r as int == self@.d,
    {
        self.den
    }

    /// Exact sum; reports when the exact result does not fit.
    pub fn add(self, rhs: Rat) -> (r: Option<Rat>)
        ensures
            match r {
                Some(q) => q@ == q_add(self@, rhs@) && q_fits(q_add(self@, rhs@)),
                None => !q_fits(q_add(self@, rhs@)),
            },
    {
        proof {
            use_type_invariant(self);
            use_type_invariant(rhs);
        }
        let n1 = self.num as i128;
        let d1 = self.den as i128;
        let n2 = rhs.num as i128;
        let d2 = rhs.den as i128;
        proof {
            lemma_i128_product_bound(n1 as int, d2 as int);
            lemma_i128_product_bound(n2 as int, d1 as int);
            lemma_i128_product_bound(d1 as int, d2 as int);
            lemma_pos_product(d1 as int, d2 as int);
        }
        let n = n1 * d2 + n2 * d1;
        let d = d1 * d2;
        if -0x7fff_ffff_ffff_ffff <= n && n <= 0x7fff_ffff_ffff_ffff && d
            <= 0x7fff_ffff_ffff_ffff {
            Some(Rat { num: n as i64, den: d as i64 })
        } else {
            None
        }
    }

    /// Exact difference; reports when the exact result does not fit.
    pub fn sub(self, rhs: Rat) -> (r: Option<Rat>)
        ensures
            match r {
                Some(q) => q@ == q_sub(self@, rhs@) && q_fits(q_sub(self@, rhs@)),
                None => !q_fits(q_sub(self@, rhs@)),
            },
    {
        self.add(rhs.neg())
    }

    /// Exact negation; total because the numerator is never `i64::MIN`.
    pub fn neg(self) -> (r: Rat)
        ensures
            r@ == q_neg(self@),
    {
        proof {
            use_type_invariant(self);
        }
        Rat { num: -self.num, den: self.den }
    }

    /// Exact absolute value.
    pub fn abs(self) -> (r: Rat)
        ensures
            r@ == q_abs(self@),
    {
        proof {
            use_type_invariant(self);
        }
        if self.num >= 0 {
            self
        } else {
            Rat { num: -self.num, den: self.den }
        }
    }

    /// Exact product; reports when the exact result does not fit.
    pub fn mul(self, rhs: Rat) -> (r: Option<Rat>)
        ensures
            match r {
                Some(q) => q@ == q_mul(self@, rhs@) && q_fits(q_mul(self@, rhs@)),
                None => !q_fits(q_mul(self@, rhs@)),
            },
    {
        proof {
            use_type_invariant(self);
            use_type_invariant(rhs);
        }
        let n1 = self.num as i128;
        let d1 = self.den as i128;
        let n2 = rhs.num as i128;
        let d2 = rhs.den as i128;
        proof {
            lemma_i128_product_bound(n1 as int, n2 as int);
            lemma_i128_product_bound(d1 as int, d2 as int);
            lemma_pos_product(d1 as int, d2 as int);
        }
        let n = n1 * n2;
        let d = d1 * d2;
        if -0x7fff_ffff_ffff_ffff <= n && n <= 0x7fff_ffff_ffff_ffff && d
            <= 0x7fff_ffff_ffff_ffff {
            Some(Rat { num: n as i64, den: d as i64 })
        } else {
            None
        }
    }

    /// Exact quotient; reports division by zero and results that do not fit.
    pub fn div(self, rhs: Rat) -> (r: Option<Rat>)
        ensures
            match r {
                Some(q) => rhs@.n != 0 && q@ == q_div(self@, rhs@) && q_fits(q_div(self@, rhs@)),
                None => rhs@.n == 0 || !q_fits(q_div(self@, rhs@)),
            },
    {
        proof {
            use_type_invariant(self);
            use_type_invariant(rhs);
        }
        if rhs.num == 0 {
            return None;
        }
        let n1 = self.num as i128;
        let d1 = self.den as i128;
        let n2 = rhs.num as i128;
        let d2 = rhs.den as i128;
        proof {
            lemma_i128_product_bound(n1 as int, d2 as int);
            lemma_i128_product_bound(d1 as int, n2 as int);
        }
        let (n, d) = if rhs.num >= 0 {
            proof {
                lemma_pos_product(d1 as int, n2 as int);
            }
            (n1 * d2, d1 * n2)
        } else {
            proof {
                lemma_pos_product(d1 as int, -(n2 as int));
                assert(-((d1 as int) * (n2 as int)) == (d1 as int) * (-(n2 as int)))
                    by (nonlinear_arith);
            }
            (-(n1 * d2), -(d1 * n2))
        };
        if -0x7fff_ffff_ffff_ffff <= n && n <= 0x7fff_ffff_ffff_ffff && d
            <= 0x7fff_ffff_ffff_ffff {
            Some(Rat { num: n as i64, den: d as i64 })
        } else {
            None
        }
    }

    /// Denotational equality test; total.
    pub fn eq_val(self, rhs: Rat) -> (r: bool)
        ensures
            r == q_eq(self@, rhs@),
    {
        proof {
            use_type_invariant(self);
            use_type_invariant(rhs);
            lemma_i128_product_bound(self.num as int, rhs.den as int);
            lemma_i128_product_bound(rhs.num as int, self.den as int);
        }
        (self.num as i128) * (rhs.den as i128) == (rhs.num as i128) * (self.den as i128)
    }

    /// Order test; total.
    pub fn le(self, rhs: Rat) -> (r: bool)
        ensures
            r == q_le(self@, rhs@),
    {
        proof {
            use_type_invariant(self);
            use_type_invariant(rhs);
            lemma_i128_product_bound(self.num as int, rhs.den as int);
            lemma_i128_product_bound(rhs.num as int, self.den as int);
        }
        (self.num as i128) * (rhs.den as i128) <= (rhs.num as i128) * (self.den as i128)
    }

    /// Strict order test; total.
    pub fn lt(self, rhs: Rat) -> (r: bool)
        ensures
            r == q_lt(self@, rhs@),
    {
        proof {
            use_type_invariant(self);
            use_type_invariant(rhs);
            lemma_i128_product_bound(self.num as int, rhs.den as int);
            lemma_i128_product_bound(rhs.num as int, self.den as int);
        }
        (self.num as i128) * (rhs.den as i128) < (rhs.num as i128) * (self.den as i128)
    }

    pub fn is_neg(self) -> (r: bool)
        ensures
            r == (self@.n < 0),
    {
        self.num < 0
    }

    pub fn is_pos(self) -> (r: bool)
        ensures
            r == (self@.n > 0),
    {
        self.num > 0
    }

    /// The denominator is positive by construction; lets callers recover
    /// well-formedness of the model from the type invariant without reading
    /// the fields.
    pub proof fn lemma_wf(self)
        requires
            self.inv(),
        ensures
            q_wf(self@),
            -0x7fff_ffff_ffff_ffff <= self@.n <= 0x7fff_ffff_ffff_ffff,
            self@.d <= 0x7fff_ffff_ffff_ffff,
    {
    }
}

/// The product of two values in `i64` range stays well inside `i128` range.
proof fn lemma_i128_product_bound(a: int, b: int) by (nonlinear_arith)
    requires
        -0x7fff_ffff_ffff_ffff <= a <= 0x7fff_ffff_ffff_ffff,
        -0x7fff_ffff_ffff_ffff <= b <= 0x7fff_ffff_ffff_ffff,
    ensures
        -0x3fff_ffff_ffff_ffff_0000_0000_0000_0001 <= a * b
            <= 0x3fff_ffff_ffff_ffff_0000_0000_0000_0001,
{
}

/// The product of two positive values is at least one.
proof fn lemma_pos_product(a: int, b: int) by (nonlinear_arith)
    requires
        a >= 1,
        b >= 1,
    ensures
        a * b >= 1,
{
}

/// Denotational equality is transitive across a well-formed middle value.
pub proof fn lemma_q_eq_trans(a: Frac, b: Frac, c: Frac) by (nonlinear_arith)
    requires
        q_wf(a),
        q_wf(b),
        q_wf(c),
        q_eq(a, b),
        q_eq(b, c),
    ensures
        q_eq(a, c),
{
}

/// Sums of equal rationals are equal.
pub proof fn lemma_q_add_cong(a: Frac, a2: Frac, b: Frac, b2: Frac)
    requires
        q_wf(a),
        q_wf(a2),
        q_wf(b),
        q_wf(b2),
        q_eq(a, a2),
        q_eq(b, b2),
    ensures
        q_eq(q_add(a, b), q_add(a2, b2)),
{
    assert((a.n * b.d) * (a2.d * b2.d) == (a2.n * b2.d) * (a.d * b.d)) by (nonlinear_arith)
        requires
            a.n * a2.d == a2.n * a.d,
    ;
    assert((b.n * a.d) * (a2.d * b2.d) == (b2.n * a2.d) * (a.d * b.d)) by (nonlinear_arith)
        requires
            b.n * b2.d == b2.n * b.d,
    ;
    assert((a.n * b.d + b.n * a.d) * (a2.d * b2.d) == (a.n * b.d) * (a2.d * b2.d) + (b.n * a.d) * (
    a2.d * b2.d)) by (nonlinear_arith);
    assert((a2.n * b2.d + b2.n * a2.d) * (a.d * b.d) == (a2.n * b2.d) * (a.d * b.d) + (b2.n * a2.d)
        * (a.d * b.d)) by (nonlinear_arith);
}

/// Products of equal rationals are equal.
pub proof fn lemma_q_mul_cong(a: Frac, a2: Frac, b: Frac, b2: Frac)
    requires
        q_wf(a),
        q_wf(a2),
        q_wf(b),
        q_wf(b2),
        q_eq(a, a2),
        q_eq(b, b2),
    ensures
        q_eq(q_mul(a, b), q_mul(a2, b2)),
{
    assert((a.n * b.n) * (a2.d * b2.d) == (a2.n * b2.n) * (a.d * b.d)) by (nonlinear_arith)
        requires
            a.n * a2.d == a2.n * a.d,
            b.n * b2.d == b2.n * b.d,
    ;
}

pub proof fn lemma_q_add_comm(a: Frac, b: Frac) by (nonlinear_arith)
    ensures
        q_add(a, b) == q_add(b, a),
{
}

pub proof fn lemma_q_mul_comm(a: Frac, b: Frac) by (nonlinear_arith)
    ensures
        q_mul(a, b) == q_mul(b, a),
{
}

#[verifier::rlimit(100)]
pub proof fn lemma_q_add_assoc(a: Frac, b: Frac, c: Frac) by (nonlinear_arith)
    ensures
        q_add(q_add(a, b), c) == q_add(a, q_add(b, c)),
{
}

pub proof fn lemma_q_mul_assoc(a: Frac, b: Frac, c: Frac) by (nonlinear_arith)
    ensures
        q_mul(q_mul(a, b), c) == q_mul(a, q_mul(b, c)),
{
}

/// Adding zero changes nothing, denotationally.
pub proof fn lemma_q_add_zero(a: Frac) by (nonlinear_arith)
    requires
        q_wf(a),
    ensures
        q_eq(q_add(a, q_int(0)), a),
        q_eq(q_add(q_int(0), a), a),
{
}

/// Multiplying by one changes nothing, denotationally.
pub proof fn lemma_q_mul_one(a: Frac) by (nonlinear_arith)
    requires
        q_wf(a),
    ensures
        q_eq(q_mul(a, q_int(1)), a),
        q_eq(q_mul(q_int(1), a), a),
{
}

/// Well-formedness survives the arithmetic operations.
pub proof fn lemma_q_ops_wf(a: Frac, b: Frac) by (nonlinear_arith)
    requires
        q_wf(a),
        q_wf(b),
    ensures
        q_wf(q_add(a, b)),
        q_wf(q_mul(a, b)),
        q_wf(q_neg(a)),
        q_wf(q_sub(a, b)),
        q_wf(q_abs(a)),
        b.n != 0 ==> q_wf(q_div(a, b)),
{
}

/// Integer powers of a rational.
pub open spec fn q_pow(x: Frac, e: nat) -> Frac
    decreases e,
{
    if e == 0 {
        q_int(1)
    } else {
        q_mul(x, q_pow(x, (e - 1) as nat))
    }
}

/// Powers of well-formed rationals are well formed.
pub proof fn lemma_q_pow_wf(x: Frac, e: nat)
    requires
        q_wf(x),
    ensures
        q_wf(q_pow(x, e)),
    decreases e,
{
    if e > 0 {
        lemma_q_pow_wf(x, (e - 1) as nat);
        lemma_q_ops_wf(x, q_pow(x, (e - 1) as nat));
    }
}

/// Powers of equal rationals are equal.
pub proof fn lemma_q_pow_cong(x: Frac, y: Frac, e: nat)
    requires
        q_wf(x),
        q_wf(y),
        q_eq(x, y),
    ensures
        q_eq(q_pow(x, e), q_pow(y, e)),
    decreases e,
{
    if e == 0 {
    } else {
        lemma_q_pow_cong(x, y, (e - 1) as nat);
        lemma_q_pow_wf(x, (e - 1) as nat);
        lemma_q_pow_wf(y, (e - 1) as nat);
        lemma_q_mul_cong(x, y, q_pow(x, (e - 1) as nat), q_pow(y, (e - 1) as nat));
    }
}

} // verus!
