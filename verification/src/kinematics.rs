//! Symbolic kinematics: dimension algebra and a small function algebra of
//! dimensioned polynomials and sums, with analytic differentiation and
//! integration and compilation to numeric evaluators.

use vstd::prelude::*;

use crate::rational::Frac;
use crate::rational::Rat;
use crate::rational::q_add;
use crate::rational::q_div;
use crate::rational::q_fits;
use crate::rational::q_eq;
use crate::rational::q_int;
use crate::rational::q_mul;
use crate::rational::q_neg;
use crate::rational::q_pow;
use crate::rational::q_wf;

verus! {

/// The independent variable a function is defined over: time, either axis,
/// or undirected arc length.
#[derive(Debug, Clone, Copy, Eq, PartialEq, Structural)]
pub enum Var {
    T,
    X,
    Y,
    S,
}

/// A base physical dimension: length, time, mass.
#[derive(Debug, Clone, Copy, Eq, PartialEq, Structural)]
pub enum Unit {
    M,
    S,
    KG,
}

/// A compound dimension: one integer exponent for each base dimension, in
/// the order length, time, mass. Multiplication adds the exponent vectors,
/// division subtracts them, and integer powers scale them.
#[derive(Debug, Clone, Copy, Eq)]
pub struct Units {
    pub exponents: [i32; 3],
}

impl PartialEq for Units {
    /// Componentwise equality of the exponent vectors.
    fn eq(&self, other: &Units) -> (r: bool) {
        let r = self.exponents[0] == other.exponents[0] && self.exponents[1]
            == other.exponents[1] && self.exponents[2] == other.exponents[2];
        proof {
            if r {
                assert(u_view(*self) =~= u_view(*other));
            }
        }
        r
    }
}

impl vstd::std_specs::cmp::PartialEqSpecImpl for Units {
    open spec fn obeys_eq_spec() -> bool {
        true
    }

    open spec fn eq_spec(&self, other: &Units) -> bool {
        u_view(*self) == u_view(*other)
    }
}

/// Mathematical model of a compound dimension: the exponent vector as a
/// sequence of unbounded integers.
pub open spec fn u_view(u: Units) -> Seq<int> {
    seq![u.exponents[0] as int, u.exponents[1] as int, u.exponents[2] as int]
}

pub open spec fn u_mul(a: Seq<int>, b: Seq<int>) -> Seq<int> {
    Seq::new(a.len(), |i: int| a[i] + b[i])
}

pub open spec fn u_div(a: Seq<int>, b: Seq<int>) -> Seq<int> {
    Seq::new(a.len(), |i: int| a[i] - b[i])
}

pub open spec fn u_pow(a: Seq<int>, e: int) -> Seq<int> {
    Seq::new(a.len(), |i: int| a[i] * e)
}

/// The dimensionless exponent vector of the given width.
pub open spec fn u_one(len: nat) -> Seq<int> {
    Seq::new(len, |i: int| 0)
}

impl Unit {
    /// The unit vector of this base dimension: exponent one in its own
    /// slot, zero elsewhere.
    pub fn units(&self) -> (r: Units)
        ensures
            u_view(r) == match *self {
                Unit::M => seq![1int, 0int, 0int],
                Unit::S => seq![0int, 1int, 0int],
                Unit::KG => seq![0int, 0int, 1int],
            },
    {
        let r = match self {
            Unit::M => Units { exponents: [1, 0, 0] },
            Unit::S => Units { exponents: [0, 1, 0] },
            Unit::KG => Units { exponents: [0, 0, 1] },
        };
        proof {
            assert(u_view(r) =~= match *self {
                Unit::M => seq![1int, 0int, 0int],
                Unit::S => seq![0int, 1int, 0int],
                Unit::KG => seq![0int, 0int, 1int],
            });
        }
        r
    }
}

impl Units {
    /// The dimensionless vector: all exponents zero.
    pub fn empty() -> (r: Units)
        ensures
            u_view(r) == u_one(3),
    {
        let r = Units { exponents: [0, 0, 0] };
        proof {
            assert(u_view(r) =~= u_one(3));
        }
        r
    }

    /// Componentwise scaling of the exponent vector.
    pub fn pow(&self, exp: i32) -> (r: Units)
        requires
            i32::MIN <= u_view(*self)[0] * exp <= i32::MAX,
            i32::MIN <= u_view(*self)[1] * exp <= i32::MAX,
            i32::MIN <= u_view(*self)[2] * exp <= i32::MAX,
        ensures
            u_view(r) == u_pow(u_view(*self), exp as int),
    {
        let r = Units {
            exponents: [
                self.exponents[0] * exp,
                self.exponents[1] * exp,
                self.exponents[2] * exp,
            ],
        };
        proof {
            assert(u_view(r) =~= u_pow(u_view(*self), exp as int));
        }
        r
    }

    /// Componentwise sum of the exponent vectors.
    pub fn mul(self, rhs: Units) -> (r: Units)
        requires
            i32::MIN <= u_view(self)[0] + u_view(rhs)[0] <= i32::MAX,
            i32::MIN <= u_view(self)[1] + u_view(rhs)[1] <= i32::MAX,
            i32::MIN <= u_view(self)[2] + u_view(rhs)[2] <= i32::MAX,
        ensures
            u_view(r) == u_mul(u_view(self), u_view(rhs)),
    {
        let r = Units {
            exponents: [
                self.exponents[0] + rhs.exponents[0],
                self.exponents[1] + rhs.exponents[1],
                self.exponents[2] + rhs.exponents[2],
            ],
        };
        proof {
            assert(u_view(r) =~= u_mul(u_view(self), u_view(rhs)));
        }
        r
    }

    /// Componentwise difference of the exponent vectors.
    pub fn div(self, rhs: Units) -> (r: Units)
        requires
            i32::MIN <= u_view(self)[0] - u_view(rhs)[0] <= i32::MAX,
            i32::MIN <= u_view(self)[1] - u_view(rhs)[1] <= i32::MAX,
            i32::MIN <= u_view(self)[2] - u_view(rhs)[2] <= i32::MAX,
        ensures
            u_view(r) == u_div(u_view(self), u_view(rhs)),
    {
        let r = Units {
            exponents: [
                self.exponents[0] - rhs.exponents[0],
                self.exponents[1] - rhs.exponents[1],
                self.exponents[2] - rhs.exponents[2],
            ],
        };
        proof {
            assert(u_view(r) =~= u_div(u_view(self), u_view(rhs)));
        }
        r
    }
}

/// Error from running a compiled numeric evaluator.
#[derive(Debug, Copy, Clone, Eq, PartialEq, Structural)]
pub enum EvalFunctionError {
    OutsideDomain,
    Imaginary,
    Overflow,
}

/// Error from handing a function an input it was not declared over.
#[derive(Debug, Copy, Clone, Eq, PartialEq, Structural)]
pub enum FunctionCompatibilityError {
    InvalidUnits,
    InvalidVar,
}

/// The specific structural defect of a polynomial term list.
#[derive(Debug, Copy, Clone, Eq, PartialEq, Structural)]
pub enum PolynomialShapeError {
    NegativeExponent,
    UnsortedPolynomial,
}

/// Error from the structural self-check of an expression tree.
#[derive(Debug, Copy, Clone, Eq, PartialEq, Structural)]
pub enum FunctionInternalError {
    UnitMismatch,
    SpecificFunctionError(PolynomialShapeError),
}

/// Any error of the function algebra.
#[derive(Debug, Copy, Clone, Eq, PartialEq, Structural)]
pub enum FunctionError {
    FunctionCompatibilityError(FunctionCompatibilityError),
    EvalFunctionError(EvalFunctionError),
    FunctionInternalError(FunctionInternalError),
}

/// Error from differentiating.
#[derive(Debug, Copy, Clone, Eq, PartialEq, Structural)]
pub enum DiffrientiationError {
    ProhibitedRespect,
    FullyUndifferentiable,
    UnkownResultFormat,
    Overflow,
}

/// Error from integrating.
#[derive(Debug, Copy, Clone, Eq, PartialEq, Structural)]
pub enum IntegrationError {
    ProhibitedRespect,
    FullyUnintegrable,
    UnkownResultFormat,
    Overflow,
}

/// Mathematical model of one polynomial term:
/// `c · (u-dimensioned) · x^e`.
pub ghost struct TermV {
    pub c: Frac,
    pub u: Seq<int>,
    pub e: int,
}

/// One term of a polynomial: a rational coefficient carrying a compound
/// dimension, at a fixed exponent of the independent variable.
#[derive(Debug, Clone, Copy, PartialEq)]
pub struct Monomial {
    pub coefficient: Rat,
    pub units_coefficient: Units,
    pub exponent: i32,
}

impl View for Monomial {
    type V = TermV;

    open spec fn view(&self) -> TermV {
        TermV {
            c: self.coefficient@,
            u: u_view(self.units_coefficient),
            e: self.exponent as int,
        }
    }
}

impl Monomial {
    pub fn init(coefficient: Rat, units_coefficient: Units, exponent: i32) -> (r: Self)
        ensures
            r.coefficient == coefficient,
            r.units_coefficient == units_coefficient,
            r.exponent == exponent,
    {
        Monomial { coefficient, units_coefficient, exponent }
    }
}

/// Mathematical model of a polynomial: its terms, variable tag, input
/// dimension and output dimension.
pub ghost struct PolyV {
    pub terms: Seq<TermV>,
    pub var: Var,
    pub vu: Seq<int>,
    pub fu: Seq<int>,
}

/// A dimensioned polynomial: term `i` carries exponent `i` once the
/// self-check has passed.
#[derive(Debug, Clone, PartialEq)]
pub struct Polynomial {
    pub expression: Vec<Monomial>,
    pub var: Var,
    pub var_units: Units,
    pub final_units: Units,
}

/// The model of a term list.
pub open spec fn terms_view(v: Seq<Monomial>) -> Seq<TermV> {
    v.map_values(|m: Monomial| m@)
}

impl View for Polynomial {
    type V = PolyV;

    open spec fn view(&self) -> PolyV {
        PolyV {
            terms: terms_view(self.expression@),
            var: self.var,
            vu: u_view(self.var_units),
            fu: u_view(self.final_units),
        }
    }
}

/// Dimensional agreement of one term: its unit coefficient times the input
/// dimension raised to its exponent gives the declared output dimension.
pub open spec fn term_dims_ok(t: TermV, vu: Seq<int>, fu: Seq<int>) -> bool {
    u_mul(t.u, u_pow(vu, t.e)) == fu
}

/// Full well-formedness of a polynomial model: contiguous exponents from
/// zero, dimensional agreement of every term, and well-formed coefficients.
pub open spec fn poly_wf(p: PolyV) -> bool {
    &&& p.vu.len() == 3
    &&& p.fu.len() == 3
    &&& forall|i: int|
        0 <= i < p.terms.len() ==> {
            &&& (#[trigger] p.terms[i]).e == i
            &&& p.terms[i].u.len() == 3
            &&& q_wf(p.terms[i].c)
            &&& term_dims_ok(p.terms[i], p.vu, p.fu)
        }
}

/// What the self-check decides, scanning the terms upward from index `i`:
/// the first violation found gives the error, in the order the check looks
/// for them (dimensional agreement before exponent shape).
pub open spec fn poly_check_from(ts: Seq<TermV>, vu: Seq<int>, fu: Seq<int>, i: int) -> Result<
    (),
    FunctionInternalError,
>
    decreases ts.len() - i,
{
    if i < 0 || i >= ts.len() {
        Ok(())
    } else if !term_dims_ok(ts[i], vu, fu) {
        Err(FunctionInternalError::UnitMismatch)
    } else if ts[i].e != i {
        if ts[i].e < 0 {
            Err(
                FunctionInternalError::SpecificFunctionError(
                    PolynomialShapeError::NegativeExponent,
                ),
            )
        } else {
            Err(
                FunctionInternalError::SpecificFunctionError(
                    PolynomialShapeError::UnsortedPolynomial,
                ),
            )
        }
    } else {
        poly_check_from(ts, vu, fu, i + 1)
    }
}

/// The self-check passes exactly on term lists whose every term agrees
/// dimensionally and sits at its own exponent.
pub proof fn lemma_poly_check_ok(ts: Seq<TermV>, vu: Seq<int>, fu: Seq<int>, i: int)
    requires
        0 <= i <= ts.len(),
    ensures
        poly_check_from(ts, vu, fu, i) is Ok <==> forall|j: int|
            i <= j < ts.len() ==> (#[trigger] ts[j]).e == j && term_dims_ok(ts[j], vu, fu),
    decreases ts.len() - i,
{
    if i < ts.len() {
        lemma_poly_check_ok(ts, vu, fu, i + 1);
    }
}

impl Polynomial {
    pub fn init(var: Var, var_units: Units, final_units: Units, terms: Vec<Monomial>) -> (r: Self)
        ensures
            r.expression == terms,
            r.var == var,
            r.var_units == var_units,
            r.final_units == final_units,
    {
        Polynomial { expression: terms, var, var_units, final_units }
    }

    pub fn var_units(&self) -> (r: Units)
        ensures
            r == self.var_units,
    {
        self.var_units
    }

    pub fn var(&self) -> (r: Var)
        ensures
            r == self.var,
    {
        self.var
    }

    pub fn final_units(&self) -> (r: Units)
        ensures
            r == self.final_units,
    {
        self.final_units
    }

    /// Validates this polynomial: terms must sit contiguously at their own
    /// exponents, none negative, and every term must agree dimensionally
    /// with the declared input and output dimensions. Reports the first
    /// violation found; a pass means the polynomial is well formed.
    pub fn check(&self) -> (r: Result<(), FunctionInternalError>)
        ensures
            r == poly_check_from(self@.terms, self@.vu, self@.fu, 0),
            r is Ok ==> poly_wf(self@),
    {
        let ghost ts = self@.terms;
        let ghost vu = self@.vu;
        let ghost fu = self@.fu;
        let mut i: usize = 0;
        while i < self.expression.len()
            invariant
                0 <= i <= self.expression.len(),
                ts == self@.terms,
                vu == self@.vu,
                fu == self@.fu,
                ts.len() == self.expression.len(),
                poly_check_from(ts, vu, fu, 0) == poly_check_from(ts, vu, fu, i as int),
                forall|j: int|
                    0 <= j < i ==> (#[trigger] ts[j]).e == j && term_dims_ok(ts[j], vu, fu)
                        && q_wf(ts[j].c) && ts[j].u.len() == 3,
            decreases self.expression.len() - i,
        {
            let m = &self.expression[i];
            proof {
                use_type_invariant(m.coefficient);
                m.coefficient.lemma_wf();
            }
            let dims_ok = Self::dims_match(&m.units_coefficient, &self.var_units, m.exponent,
                &self.final_units);
            proof {
                assert(ts[i as int] == m@);
            }
            if !dims_ok {
                return Err(FunctionInternalError::UnitMismatch);
            }
            if m.exponent < 0 {
                return Err(
                    FunctionInternalError::SpecificFunctionError(
                        PolynomialShapeError::NegativeExponent,
                    ),
                );
            }
            if m.exponent as usize != i {
                return Err(
                    FunctionInternalError::SpecificFunctionError(
                        PolynomialShapeError::UnsortedPolynomial,
                    ),
                );
            }
            i += 1;
        }
        Ok(())
    }

    /// Whether `u · vu^e == fu`, computed in wide integers so that any
    /// exponent can be handled.
    fn dims_match(u: &Units, vu: &Units, e: i32, fu: &Units) -> (r: bool)
        ensures
            r == term_dims_ok(TermV { c: q_int(0), u: u_view(*u), e: e as int }, u_view(*vu),
                u_view(*fu)),
    {
        proof {
            lemma_i32_mul_fits(vu.exponents[0] as int, e as int);
            lemma_i32_mul_fits(vu.exponents[1] as int, e as int);
            lemma_i32_mul_fits(vu.exponents[2] as int, e as int);
        }
        let r = (u.exponents[0] as i64) + (vu.exponents[0] as i64) * (e as i64) == (fu.exponents[0]
            as i64) && (u.exponents[1] as i64) + (vu.exponents[1] as i64) * (e as i64) == (
        fu.exponents[1] as i64) && (u.exponents[2] as i64) + (vu.exponents[2] as i64) * (e as i64)
            == (fu.exponents[2] as i64);
        proof {
            let t = TermV { c: q_int(0), u: u_view(*u), e: e as int };
            if r {
                assert(u_mul(t.u, u_pow(u_view(*vu), e as int)) =~= u_view(*fu));
            } else {
                assert(u_mul(t.u, u_pow(u_view(*vu), e as int)) != u_view(*fu));
            }
        }
        r
    }
}

/// Products of `i32`-range values fit comfortably in `i64`.
proof fn lemma_i32_mul_fits(a: int, b: int) by (nonlinear_arith)
    requires
        -0x8000_0000 <= a <= 0x7fff_ffff,
        -0x8000_0000 <= b <= 0x7fff_ffff,
    ensures
        -0x4000_0000_0000_0000 <= a * b <= 0x4000_0000_0000_0000,
{
}

/// Binomial coefficient "n choose k", by Pascal's rule; zero outside the
/// triangle.
pub open spec fn binom(n: int, k: int) -> int
    decreases n,
{
    if n < 0 || k < 0 || k > n {
        0
    } else if k == 0 {
        1
    } else {
        binom(n - 1, k - 1) + binom(n - 1, k)
    }
}

/// Powers of two over the integers.
pub open spec fn pow2i(n: int) -> int
    decreases n,
{
    if n <= 0 {
        1
    } else {
        2 * pow2i(n - 1)
    }
}

/// Every binomial coefficient of row `n` is nonnegative and at most `2^n`.
pub proof fn lemma_binom_row_bound(n: int)
    ensures
        forall|k: int| 0 <= #[trigger] binom(n, k) <= pow2i(n),
    decreases (if n < 0 { 0int } else { n }),
{
    if n > 0 {
        lemma_binom_row_bound(n - 1);
        assert forall|k: int| 0 <= #[trigger] binom(n, k) <= pow2i(n) by {
            if 0 <= k <= n {
                assert(0 <= binom(n - 1, k - 1) <= pow2i(n - 1));
                assert(0 <= binom(n - 1, k) <= pow2i(n - 1));
            }
        }
    }
}

/// The diagonal of Pascal's triangle is all ones.
pub proof fn lemma_binom_diag(n: int)
    requires
        n >= 0,
    ensures
        binom(n, n) == 1,
    decreases n,
{
    if n > 0 {
        lemma_binom_diag(n - 1);
        assert(binom(n - 1, n) == 0);
    }
}

/// Binomial coefficients are nonnegative everywhere.
pub proof fn lemma_binom_nonneg(n: int, k: int)
    ensures
        binom(n, k) >= 0,
    decreases (if n < 0 { 0int } else { n }),
{
    if n > 0 && 0 <= k <= n && k != 0 {
        lemma_binom_nonneg(n - 1, k - 1);
        lemma_binom_nonneg(n - 1, k);
    }
}

/// Pascal symmetry: choosing `k` of `n` is choosing the `n - k` left out.
pub proof fn lemma_binom_symm(n: int, k: int)
    requires
        0 <= k <= n,
    ensures
        binom(n, k) == binom(n, n - k),
    decreases n,
{
    if k == 0 || k == n {
        lemma_binom_diag(n);
    } else {
        lemma_binom_symm(n - 1, k - 1);
        lemma_binom_symm(n - 1, k);
        assert(binom(n, n - k) == binom(n - 1, n - k - 1) + binom(n - 1, n - k));
    }
}

/// Each column of Pascal's triangle is nondecreasing down the rows.
pub proof fn lemma_binom_col_le(m: int, n: int, k: int)
    requires
        0 <= m <= n,
    ensures
        binom(m, k) <= binom(n, k),
    decreases n - m,
{
    if m < n {
        lemma_binom_col_le(m, n - 1, k);
        lemma_binom_nonneg(n - 1, k - 1);
        lemma_binom_nonneg(n - 1, k);
    }
}

/// One step up the rising half of a row of Pascal's triangle.
proof fn lemma_binom_row_step(n: int, k: int)
    requires
        0 <= k,
        k + 1 <= n - k,
    ensures
        binom(n, k) <= binom(n, k + 1),
    decreases n,
{
    if k == 0 {
        lemma_binom_nonneg(n - 1, 1);
        assert(binom(n, 1) == binom(n - 1, 0) + binom(n - 1, 1));
    } else {
        lemma_binom_row_step(n - 1, k - 1);
        if k + 1 <= (n - 1) - k {
            lemma_binom_row_step(n - 1, k);
        } else {
            lemma_binom_symm(n - 1, k - 1);
            assert((n - 1) - (k - 1) == k + 1);
        }
        assert(binom(n, k) == binom(n - 1, k - 1) + binom(n - 1, k));
        assert(binom(n, k + 1) == binom(n - 1, k) + binom(n - 1, k + 1));
    }
}

/// Within the rising half of a row, every entry is at most the one in
/// column `r`.
pub proof fn lemma_binom_row_le(n: int, j: int, r: int)
    requires
        0 <= j <= r,
        r <= n - r,
    ensures
        binom(n, j) <= binom(n, r),
    decreases r - j,
{
    if j < r {
        lemma_binom_row_step(n, j);
        lemma_binom_row_le(n, j + 1, r);
    }
}

/// Powers of two are positive.
proof fn lemma_pow2i_pos(n: int)
    ensures
        pow2i(n) >= 1,
    decreases (if n < 0 { 0int } else { n }),
{
    if n > 0 {
        lemma_pow2i_pos(n - 1);
    }
}

/// Powers of two grow with the exponent.
proof fn lemma_pow2i_le(a: int, b: int)
    requires
        a <= b,
    ensures
        pow2i(a) <= pow2i(b),
    decreases b - a,
{
    lemma_pow2i_pos(a);
    if a < b {
        lemma_pow2i_le(a, b - 1);
        lemma_pow2i_pos(b - 1);
    }
}

/// `2^63` written out.
proof fn lemma_pow2i_63()
    ensures
        pow2i(63) == 0x8000_0000_0000_0000,
{
    reveal_with_fuel(pow2i, 64);
}

/// The number of ways to choose `r` of `n` items: the binomial
/// coefficient, zero when `r` exceeds `n`, exact whenever the result
/// itself fits the machine word. Computed by Pascal's rule over the
/// shorter of the columns `r` and `n - r` — by symmetry the same value —
/// and every entry those columns ever hold is bounded by the result.
pub fn count_combinations(n: u64, r: u64) -> (c: u64)
    requires
        r > n || (n <= usize::MAX && binom(n as int, r as int) <= u64::MAX),
    ensures
        c as int == binom(n as int, r as int),
{
    if r > n {
        return 0;
    }
    let r: u64 = if r <= n - r {
        r
    } else {
        proof {
            lemma_binom_symm(n as int, r as int);
        }
        n - r
    };
    proof {
        assert forall|ii: int, jj: int| 0 <= jj <= r && jj <= ii <= n implies #[trigger] binom(
            ii,
            jj,
        ) <= u64::MAX by {
            lemma_binom_col_le(ii, n as int, jj);
            lemma_binom_row_le(n as int, jj, r as int);
        }
    }
    let mut row: Vec<u64> = Vec::new();
    row.push(1);
    let mut i: usize = 0;
    while i < n as usize
        invariant
            r <= n,
            n <= usize::MAX,
            i <= n,
            forall|ii: int, jj: int|
                0 <= jj <= r && jj <= ii <= n ==> #[trigger] binom(ii, jj) <= u64::MAX,
            row@.len() == (if (i as u64) < r {
                i + 1
            } else {
                r as usize + 1
            }),
            forall|k: int| 0 <= k < row@.len() ==> row@[k] as int == binom(i as int, k),
        decreases n as usize - i,
    {
        let bound: usize = if (i as u64) < r {
            i
        } else {
            r as usize
        };
        let mut next: Vec<u64> = Vec::new();
        next.push(1);
        let mut k: usize = 1;
        while k <= bound
            invariant
                r <= n,
                n <= usize::MAX,
                i < n,
                i < n as usize,
                bound == (if (i as u64) < r {
                    i as int
                } else {
                    r as int
                }),
                bound <= i,
                1 <= k <= bound + 1,
                forall|ii: int, jj: int|
                    0 <= jj <= r && jj <= ii <= n ==> #[trigger] binom(ii, jj) <= u64::MAX,
                row@.len() == (if (i as u64) < r {
                    i + 1
                } else {
                    r as usize + 1
                }),
                forall|j: int| 0 <= j < row@.len() ==> row@[j] as int == binom(i as int, j),
                next@.len() == k,
                forall|j: int| 0 <= j < k ==> next@[j] as int == binom(i + 1, j),
            decreases bound + 1 - k,
        {
            proof {
                lemma_binom_row_bound(i as int);
                assert(binom(i + 1, k as int) == binom(i as int, k - 1) + binom(
                    i as int,
                    k as int,
                ));
                assert(binom(i + 1, k as int) <= u64::MAX);
            }
            let v = row[k - 1] + row[k];
            next.push(v);
            k += 1;
        }
        if (i as u64) < r {
            proof {
                lemma_binom_diag(i + 1);
            }
            next.push(1);
        }
        row = next;
        i += 1;
    }
    proof {
        assert(i == n as usize);
        assert(!((i as u64) < r));
        assert(row@.len() == r as usize + 1);
        assert(row@[r as int] as int == binom(n as int, r as int));
    }
    row[r as usize]
}

/// What differentiation does to one term: scale the coefficient by the old
/// exponent and decrement the exponent; the unit coefficient is untouched.
pub open spec fn diff_term(t: TermV) -> TermV {
    TermV { c: q_mul(t.c, q_int(t.e)), u: t.u, e: t.e - 1 }
}

/// What differentiation does to a term list: drop the constant terms and
/// map the rest.
pub open spec fn diff_terms(ts: Seq<TermV>) -> Seq<TermV>
    decreases ts.len(),
{
    if ts.len() == 0 {
        Seq::empty()
    } else {
        let front = diff_terms(ts.drop_last());
        if ts.last().e != 0 {
            front.push(diff_term(ts.last()))
        } else {
            front
        }
    }
}

/// The machine can differentiate the list exactly when every scaled
/// coefficient and decremented exponent fits.
pub open spec fn diff_ok(ts: Seq<TermV>) -> bool {
    forall|i: int|
        0 <= i < ts.len() && (#[trigger] ts[i]).e != 0 ==> ts[i].e > i32::MIN && q_fits(
            q_mul(ts[i].c, q_int(ts[i].e)),
        )
}

/// What integration does to one term: divide the coefficient by the new
/// exponent and increment the exponent; the unit coefficient is untouched.
pub open spec fn int_term(t: TermV) -> TermV {
    TermV { c: q_div(t.c, q_int(t.e + 1)), u: t.u, e: t.e + 1 }
}

/// What integration does to a term list: prepend a constant term carrying
/// the integration constant, dimensioned as output times input, and map the
/// rest.
pub open spec fn int_terms(ts: Seq<TermV>, c0: Frac, fu: Seq<int>, vu: Seq<int>) -> Seq<TermV> {
    seq![TermV { c: c0, u: u_mul(fu, vu), e: 0 }] + ts.map_values(|t: TermV| int_term(t))
}

/// The machine can integrate the list exactly when no new exponent is zero
/// or out of range and every divided coefficient fits.
pub open spec fn int_ok(ts: Seq<TermV>) -> bool {
    forall|i: int|
        0 <= i < ts.len() ==> (#[trigger] ts[i]).e + 1 != 0 && ts[i].e < i32::MAX && q_fits(
            q_div(ts[i].c, q_int(ts[i].e + 1)),
        )
}

/// What vertical stretching does to a term list: scale every coefficient.
pub open spec fn stretch_terms(ts: Seq<TermV>, k: Frac) -> Seq<TermV> {
    ts.map_values(|t: TermV| TermV { c: q_mul(t.c, k), u: t.u, e: t.e })
}

pub open spec fn stretch_ok(ts: Seq<TermV>, k: Frac) -> bool {
    forall|i: int| 0 <= i < ts.len() ==> q_fits(q_mul((#[trigger] ts[i]).c, k))
}

/// What vertical shifting does to a term list: add the delta to the leading
/// (constant) coefficient only.
pub open spec fn shift_vert_terms(ts: Seq<TermV>, delta: Frac) -> Seq<TermV> {
    ts.update(0, TermV { c: q_add(ts[0].c, delta), u: ts[0].u, e: ts[0].e })
}

impl Polynomial {
    /// Analytic derivative with respect to `respect`, which must be this
    /// polynomial's own variable: drops constant terms, scales every other
    /// coefficient by its exponent and decrements the exponent, and divides
    /// the output dimension by the input dimension.
    pub fn differentiated(&self, respect: Var) -> (r: Result<Polynomial, DiffrientiationError>)
        requires
            respect == self.var ==> i32::MIN <= self@.fu[0] - self@.vu[0] <= i32::MAX,
            respect == self.var ==> i32::MIN <= self@.fu[1] - self@.vu[1] <= i32::MAX,
            respect == self.var ==> i32::MIN <= self@.fu[2] - self@.vu[2] <= i32::MAX,
        ensures
            respect != self.var ==> r == Err::<Polynomial, DiffrientiationError>(
                DiffrientiationError::ProhibitedRespect,
            ),
            respect == self.var ==> ((r is Ok) <==> diff_ok(self@.terms)),
            respect == self.var && r is Err ==> r == Err::<Polynomial, DiffrientiationError>(
                DiffrientiationError::Overflow,
            ),
            r matches Ok(q) ==> q@ == (PolyV {
                terms: diff_terms(self@.terms),
                var: self@.var,
                vu: self@.vu,
                fu: u_div(self@.fu, self@.vu),
            }),
    {
        if respect != self.var {
            return Err(DiffrientiationError::ProhibitedRespect);
        }
        let ghost ts = self@.terms;
        let mut derivative: Vec<Monomial> = Vec::new();
        proof {
            assert(terms_view(derivative@) =~= diff_terms(ts.take(0)));
        }
        let mut i: usize = 0;
        while i < self.expression.len()
            invariant
                respect == self.var,
                i <= self.expression.len(),
                ts == self@.terms,
                ts.len() == self.expression.len(),
                terms_view(derivative@) == diff_terms(ts.take(i as int)),
                forall|j: int|
                    0 <= j < i && (#[trigger] ts[j]).e != 0 ==> ts[j].e > i32::MIN && q_fits(
                        q_mul(ts[j].c, q_int(ts[j].e)),
                    ),
            decreases self.expression.len() - i,
        {
            let m = &self.expression[i];
            proof {
                assert(ts[i as int] == m@);
            }
            if m.exponent != 0 {
                if m.exponent == i32::MIN {
                    return Err(DiffrientiationError::Overflow);
                }
                let c = match m.coefficient.mul(Rat::from_int(m.exponent as i64)) {
                    Some(c) => c,
                    None => {
                        return Err(DiffrientiationError::Overflow);
                    },
                };
                derivative.push(
                    Monomial {
                        coefficient: c,
                        units_coefficient: m.units_coefficient,
                        exponent: m.exponent - 1,
                    },
                );
            }
            proof {
                assert(ts.take(i + 1).drop_last() =~= ts.take(i as int));
                assert(ts.take(i + 1).last() == ts[i as int]);
                assert(terms_view(derivative@) =~= diff_terms(ts.take(i + 1)));
            }
            i += 1;
        }
        proof {
            assert(ts.take(ts.len() as int) =~= ts);
        }
        Ok(Polynomial::init(self.var, self.var_units, self.final_units.div(self.var_units),
            derivative))
    }

    /// Analytic antiderivative with respect to `respect`, which must be
    /// this polynomial's own variable, with `c` as the integration
    /// constant: prepends a constant term, divides every other coefficient
    /// by its new exponent and increments the exponent, and multiplies the
    /// output dimension by the input dimension.
    pub fn integrated_c(&self, respect: Var, c: Rat) -> (r: Result<Polynomial, IntegrationError>)
        requires
            respect == self.var ==> i32::MIN <= self@.fu[0] + self@.vu[0] <= i32::MAX,
            respect == self.var ==> i32::MIN <= self@.fu[1] + self@.vu[1] <= i32::MAX,
            respect == self.var ==> i32::MIN <= self@.fu[2] + self@.vu[2] <= i32::MAX,
        ensures
            respect != self.var ==> r == Err::<Polynomial, IntegrationError>(
                IntegrationError::ProhibitedRespect,
            ),
            respect == self.var ==> ((r is Ok) <==> int_ok(self@.terms)),
            respect == self.var && r is Err ==> r == Err::<Polynomial, IntegrationError>(
                IntegrationError::Overflow,
            ),
            r matches Ok(q) ==> q@ == (PolyV {
                terms: int_terms(self@.terms, c@, self@.fu, self@.vu),
                var: self@.var,
                vu: self@.vu,
                fu: u_mul(self@.fu, self@.vu),
            }),
    {
        if respect != self.var {
            return Err(IntegrationError::ProhibitedRespect);
        }
        let ghost ts = self@.terms;
        let mut integral: Vec<Monomial> = Vec::new();
        integral.push(
            Monomial {
                coefficient: c,
                units_coefficient: self.final_units.mul(self.var_units),
                exponent: 0,
            },
        );
        proof {
            assert(terms_view(integral@) =~= int_terms(ts.take(0), c@, self@.fu, self@.vu));
        }
        let mut i: usize = 0;
        while i < self.expression.len()
            invariant
                respect == self.var,
                i <= self.expression.len(),
                ts == self@.terms,
                ts.len() == self.expression.len(),
                terms_view(integral@) == int_terms(ts.take(i as int), c@, self@.fu, self@.vu),
                forall|j: int|
                    0 <= j < i ==> (#[trigger] ts[j]).e + 1 != 0 && ts[j].e < i32::MAX && q_fits(
                        q_div(ts[j].c, q_int(ts[j].e + 1)),
                    ),
            decreases self.expression.len() - i,
        {
            let m = &self.expression[i];
            proof {
                assert(ts[i as int] == m@);
            }
            if m.exponent == i32::MAX {
                return Err(IntegrationError::Overflow);
            }
            let divisor = Rat::from_int((m.exponent as i64) + 1);
            let nc = match m.coefficient.div(divisor) {
                Some(nc) => nc,
                None => {
                    return Err(IntegrationError::Overflow);
                },
            };
            let ghost pre = integral@;
            integral.push(
                Monomial {
                    coefficient: nc,
                    units_coefficient: m.units_coefficient,
                    exponent: m.exponent + 1,
                },
            );
            proof {
                ts.lemma_map_take_succ(|t: TermV| int_term(t), i as int);
                pre.lemma_push_map_commute(|mm: Monomial| mm@, integral@.last());
                assert(terms_view(integral@) =~= int_terms(ts.take(i + 1), c@, self@.fu,
                    self@.vu));
            }
            i += 1;
        }
        proof {
            assert(ts.take(ts.len() as int) =~= ts);
        }
        Ok(Polynomial::init(self.var, self.var_units, self.final_units.mul(self.var_units),
            integral))
    }

    /// Scales every coefficient by `n`.
    pub fn stretch_vert(&self, n: Rat) -> (r: Result<Polynomial, EvalFunctionError>)
        ensures
            (r is Ok) <==> stretch_ok(self@.terms, n@),
            r is Err ==> r == Err::<Polynomial, EvalFunctionError>(EvalFunctionError::Overflow),
            r matches Ok(q) ==> q@ == (PolyV {
                terms: stretch_terms(self@.terms, n@),
                var: self@.var,
                vu: self@.vu,
                fu: self@.fu,
            }),
    {
        let ghost ts = self@.terms;
        let mut scaled: Vec<Monomial> = Vec::new();
        proof {
            assert(terms_view(scaled@) =~= stretch_terms(ts.take(0), n@));
        }
        let mut i: usize = 0;
        while i < self.expression.len()
            invariant
                i <= self.expression.len(),
                ts == self@.terms,
                ts.len() == self.expression.len(),
                terms_view(scaled@) == stretch_terms(ts.take(i as int), n@),
                forall|j: int| 0 <= j < i ==> q_fits(q_mul((#[trigger] ts[j]).c, n@)),
            decreases self.expression.len() - i,
        {
            let m = &self.expression[i];
            proof {
                assert(ts[i as int] == m@);
            }
            let nc = match m.coefficient.mul(n) {
                Some(nc) => nc,
                None => {
                    return Err(EvalFunctionError::Overflow);
                },
            };
            let ghost pre = scaled@;
            scaled.push(
                Monomial {
                    coefficient: nc,
                    units_coefficient: m.units_coefficient,
                    exponent: m.exponent,
                },
            );
            proof {
                ts.lemma_map_take_succ(|t: TermV| TermV { c: q_mul(t.c, n@), u: t.u, e: t.e },
                    i as int);
                pre.lemma_push_map_commute(|mm: Monomial| mm@, scaled@.last());
                assert(terms_view(scaled@) =~= stretch_terms(ts.take(i + 1), n@));
            }
            i += 1;
        }
        proof {
            assert(ts.take(ts.len() as int) =~= ts);
        }
        Ok(Polynomial::init(self.var, self.var_units, self.final_units, scaled))
    }

    /// Adds `n` to the constant (zero-exponent) term's coefficient only.
    /// The term list must not be empty: the constant term is the first one.
    pub fn shift_vert(&self, n: Rat) -> (r: Result<Polynomial, EvalFunctionError>)
        requires
            self@.terms.len() > 0,
        ensures
            (r is Ok) <==> q_fits(q_add(self@.terms[0].c, n@)),
            r is Err ==> r == Err::<Polynomial, EvalFunctionError>(EvalFunctionError::Overflow),
            r matches Ok(q) ==> q@ == (PolyV {
                terms: shift_vert_terms(self@.terms, n@),
                var: self@.var,
                vu: self@.vu,
                fu: self@.fu,
            }),
    {
        let ghost ts = self@.terms;
        let first = &self.expression[0];
        proof {
            assert(ts[0] == first@);
        }
        let nc = match first.coefficient.add(n) {
            Some(nc) => nc,
            None => {
                return Err(EvalFunctionError::Overflow);
            },
        };
        let mut shifted: Vec<Monomial> = Vec::new();
        shifted.push(
            Monomial {
                coefficient: nc,
                units_coefficient: first.units_coefficient,
                exponent: first.exponent,
            },
        );
        proof {
            assert(terms_view(shifted@) =~= shift_vert_terms(ts, n@).take(1));
        }
        let mut i: usize = 1;
        while i < self.expression.len()
            invariant
                1 <= i <= self.expression.len(),
                ts == self@.terms,
                ts.len() == self.expression.len(),
                ts.len() > 0,
                terms_view(shifted@) == shift_vert_terms(ts, n@).take(i as int),
            decreases self.expression.len() - i,
        {
            let m = &self.expression[i];
            proof {
                assert(ts[i as int] == m@);
            }
            let ghost pre = shifted@;
            shifted.push(*m);
            proof {
                pre.lemma_push_map_commute(|mm: Monomial| mm@, *m);
                assert(shift_vert_terms(ts, n@).take(i + 1) =~= shift_vert_terms(ts, n@).take(
                    i as int,
                ).push(shift_vert_terms(ts, n@)[i as int]));
                assert(terms_view(shifted@) =~= shift_vert_terms(ts, n@).take(i + 1));
            }
            i += 1;
        }
        proof {
            assert(shift_vert_terms(ts, n@).take(ts.len() as int) =~= shift_vert_terms(ts, n@));
        }
        Ok(Polynomial::init(self.var, self.var_units, self.final_units, shifted))
    }
}

/// The coefficients of a term list, in order.
pub open spec fn coeffs_of(ts: Seq<TermV>) -> Seq<Frac> {
    ts.map_values(|t: TermV| t.c)
}

/// The models of a coefficient vector.
pub open spec fn rats_view(v: Seq<Rat>) -> Seq<Frac> {
    v.map_values(|r: Rat| r@)
}

/// The value of a dense coefficient list at `x`, summed from index `i`
/// upward: `cs[i]·x^i + cs[i+1]·x^(i+1) + ...`.
pub open spec fn peval_from(cs: Seq<Frac>, x: Frac, i: int) -> Frac
    decreases cs.len() - i,
{
    if i < 0 || i >= cs.len() {
        q_int(0)
    } else {
        q_add(q_mul(cs[i], q_pow(x, i as nat)), peval_from(cs, x, i + 1))
    }
}

/// The value of a dense coefficient list at `x`.
pub open spec fn peval(cs: Seq<Frac>, x: Frac) -> Frac {
    peval_from(cs, x, 0)
}

/// A function expression: a dimensioned polynomial, or a sum of two
/// compatible sub-functions. Sums own their children on the heap, so the
/// type is an indirect recursive tagged union.
#[derive(Debug)]
pub enum Function {
    Polynomial(Polynomial),
    Sum(Box<SumFunction>),
}

/// The sum of two sub-functions agreeing on variable, input dimension and
/// output dimension.
#[derive(Debug)]
pub struct SumFunction {
    pub f1: Box<Function>,
    pub f2: Box<Function>,
    pub var: Var,
    pub var_units: Units,
    pub final_units: Units,
}

/// Why two functions cannot be summed.
#[derive(Debug, Copy, Clone, Eq, PartialEq, Structural)]
pub enum SumCompatibilityError {
    DifferentVariables,
    DifferentInputUnits,
    DifferentOutputUnits,
}

/// The variable tag of a function expression.
pub open spec fn fn_var(f: Function) -> Var {
    match f {
        Function::Polynomial(p) => p.var,
        Function::Sum(s) => s.var,
    }
}

/// The input dimension of a function expression.
pub open spec fn fn_vu(f: Function) -> Seq<int> {
    match f {
        Function::Polynomial(p) => u_view(p.var_units),
        Function::Sum(s) => u_view(s.var_units),
    }
}

/// The output dimension of a function expression.
pub open spec fn fn_fu(f: Function) -> Seq<int> {
    match f {
        Function::Polynomial(p) => u_view(p.final_units),
        Function::Sum(s) => u_view(s.final_units),
    }
}

/// A sum node's own consistency: both children agree with its declared
/// variable and dimensions.
pub open spec fn sum_agree(s: SumFunction) -> bool {
    &&& fn_var(*s.f1) == s.var
    &&& fn_var(*s.f2) == s.var
    &&& fn_vu(*s.f1) == u_view(s.var_units)
    &&& fn_vu(*s.f2) == u_view(s.var_units)
    &&& fn_fu(*s.f1) == u_view(s.final_units)
    &&& fn_fu(*s.f2) == u_view(s.final_units)
}

/// Well-formedness of a whole expression tree.
pub open spec fn fn_wf(f: Function) -> bool
    decreases f,
{
    match f {
        Function::Polynomial(p) => poly_wf(p@),
        Function::Sum(s) => sum_agree(*s) && fn_wf(*s.f1) && fn_wf(*s.f2),
    }
}

/// The exact rational value of a function expression at `x`.
pub open spec fn fn_eval(f: Function, x: Frac) -> Frac
    decreases f,
{
    match f {
        Function::Polynomial(p) => peval(coeffs_of(p@.terms), x),
        Function::Sum(s) => q_add(fn_eval(*s.f1, x), fn_eval(*s.f2, x)),
    }
}

/// What the shallow self-check of a node decides.
pub open spec fn fn_check_spec(f: Function) -> Result<(), FunctionInternalError> {
    match f {
        Function::Polynomial(p) => poly_check_from(p@.terms, p@.vu, p@.fu, 0),
        Function::Sum(s) => if sum_agree(*s) {
            Ok(())
        } else {
            Err(FunctionInternalError::UnitMismatch)
        },
    }
}

/// What the recursive check of a whole tree decides: both children first,
/// then the node itself.
pub open spec fn fn_checkrec_spec(f: Function) -> Result<(), FunctionInternalError>
    decreases f,
{
    match f {
        Function::Polynomial(p) => poly_check_from(p@.terms, p@.vu, p@.fu, 0),
        Function::Sum(s) => if fn_checkrec_spec(*s.f1) is Err {
            fn_checkrec_spec(*s.f1)
        } else if fn_checkrec_spec(*s.f2) is Err {
            fn_checkrec_spec(*s.f2)
        } else {
            fn_check_spec(f)
        },
    }
}

impl SumFunction {
    /// Builds a sum from two functions, refusing any disagreement on
    /// variable, input dimension or output dimension, in that order of
    /// priority. An invalid sum can therefore never exist.
    pub fn from_compatible(f1: Function, f2: Function) -> (r: Result<
        SumFunction,
        SumCompatibilityError,
    >)
        ensures
            fn_var(f1) != fn_var(f2) ==> r == Err::<SumFunction, SumCompatibilityError>(
                SumCompatibilityError::DifferentVariables,
            ),
            fn_var(f1) == fn_var(f2) && fn_vu(f1) != fn_vu(f2) ==> r == Err::<
                SumFunction,
                SumCompatibilityError,
            >(SumCompatibilityError::DifferentInputUnits),
            fn_var(f1) == fn_var(f2) && fn_vu(f1) == fn_vu(f2) && fn_fu(f1) != fn_fu(f2) ==> r
                == Err::<SumFunction, SumCompatibilityError>(
                SumCompatibilityError::DifferentOutputUnits,
            ),
            r matches Ok(s) ==> *s.f1 == f1 && *s.f2 == f2 && s.var == fn_var(f1) && u_view(
                s.var_units,
            ) == fn_vu(f1) && u_view(s.final_units) == fn_fu(f1) && sum_agree(s),
            fn_var(f1) == fn_var(f2) && fn_vu(f1) == fn_vu(f2) && fn_fu(f1) == fn_fu(f2) ==> r
                is Ok,
    {
        if f1.var() != f2.var() {
            return Err(SumCompatibilityError::DifferentVariables);
        }
        if f1.var_units() != f2.var_units() {
            return Err(SumCompatibilityError::DifferentInputUnits);
        }
        if f1.final_units() != f2.final_units() {
            return Err(SumCompatibilityError::DifferentOutputUnits);
        }
        let var = f1.var();
        let var_units = f1.var_units();
        let final_units = f1.final_units();
        Ok(SumFunction { f1: Box::new(f1), f2: Box::new(f2), var, var_units, final_units })
    }

    pub fn var(&self) -> (r: Var)
        ensures
            r == self.var,
    {
        self.var
    }

    pub fn var_units(&self) -> (r: Units)
        ensures
            r == self.var_units,
    {
        self.var_units
    }

    pub fn final_units(&self) -> (r: Units)
        ensures
            r == self.final_units,
    {
        self.final_units
    }

    /// Shallow consistency check of this node: both children must agree
    /// with the declared variable and dimensions.
    pub fn check(&self) -> (r: Result<(), FunctionInternalError>)
        ensures
            r == (if sum_agree(*self) {
                Ok::<(), FunctionInternalError>(())
            } else {
                Err(FunctionInternalError::UnitMismatch)
            }),
    {
        if self.f1.var_units() != self.var_units || self.f2.var_units() != self.var_units
            || self.f1.final_units() != self.final_units || self.f2.final_units()
            != self.final_units || self.f1.var() != self.var || self.f2.var() != self.var {
            return Err(FunctionInternalError::UnitMismatch);
        }
        Ok(())
    }
}

impl Function {
    pub fn var(&self) -> (r: Var)
        ensures
            r == fn_var(*self),
    {
        match self {
            Function::Polynomial(p) => p.var,
            Function::Sum(s) => s.var,
        }
    }

    pub fn var_units(&self) -> (r: Units)
        ensures
            u_view(r) == fn_vu(*self),
    {
        match self {
            Function::Polynomial(p) => p.var_units,
            Function::Sum(s) => s.var_units,
        }
    }

    pub fn final_units(&self) -> (r: Units)
        ensures
            u_view(r) == fn_fu(*self),
    {
        match self {
            Function::Polynomial(p) => p.final_units,
            Function::Sum(s) => s.final_units,
        }
    }

    /// Rejects an input that does not match this function's declared
    /// variable and input dimension: wrong dimension first, then wrong
    /// variable.
    pub fn check_input(&self, var: Var, units: Units) -> (r: Result<
        (),
        FunctionCompatibilityError,
    >)
        ensures
            u_view(units) != fn_vu(*self) ==> r == Err::<(), FunctionCompatibilityError>(
                FunctionCompatibilityError::InvalidUnits,
            ),
            u_view(units) == fn_vu(*self) && var != fn_var(*self) ==> r == Err::<
                (),
                FunctionCompatibilityError,
            >(FunctionCompatibilityError::InvalidVar),
            u_view(units) == fn_vu(*self) && var == fn_var(*self) ==> r is Ok,
    {
        if self.var_units() == units {
            if self.var() == var {
                Ok(())
            } else {
                Err(FunctionCompatibilityError::InvalidVar)
            }
        } else {
            Err(FunctionCompatibilityError::InvalidUnits)
        }
    }

    /// Shallow self-check of this node alone.
    pub fn check(&self) -> (r: Result<(), FunctionInternalError>)
        ensures
            r == fn_check_spec(*self),
    {
        match self {
            Function::Polynomial(p) => p.check(),
            Function::Sum(s) => s.check(),
        }
    }

    /// Recursive self-check of the whole expression tree: a sum checks
    /// both children, then itself. A pass means the tree is well formed.
    pub fn check_recursive(&self) -> (r: Result<(), FunctionInternalError>)
        ensures
            r == fn_checkrec_spec(*self),
            r is Ok ==> fn_wf(*self),
        decreases *self,
    {
        match self {
            Function::Polynomial(p) => p.check(),
            Function::Sum(s) => {
                let r1 = s.f1.check_recursive();
                if r1.is_err() {
                    return r1;
                }
                let r2 = s.f2.check_recursive();
                if r2.is_err() {
                    return r2;
                }
                s.check()
            },
        }
    }
}

/// A compiled numeric evaluator: the dense coefficient list of a
/// polynomial, or the sum of two compiled evaluators.
#[derive(Debug)]
pub enum CompiledFunction {
    Polynomial(Vec<Rat>),
    Sum(Box<CompiledFunction>, Box<CompiledFunction>),
}

/// The exact rational value of a compiled evaluator at `x`.
pub open spec fn ceval(c: CompiledFunction, x: Frac) -> Frac
    decreases c,
{
    match c {
        CompiledFunction::Polynomial(v) => peval(rats_view(v@), x),
        CompiledFunction::Sum(a, b) => q_add(ceval(*a, x), ceval(*b, x)),
    }
}

/// What the machine evaluation of a dense coefficient list computes, one
/// step at a time from index `i` with partial sum `acc` and power `pw`:
/// the exact result, or nothing as soon as one step does not fit.
pub open spec fn peval_steps(cs: Seq<Frac>, x: Frac, i: int, acc: Frac, pw: Frac) -> Option<Frac>
    decreases cs.len() - i,
{
    if i < 0 || i >= cs.len() {
        Some(acc)
    } else {
        let term = q_mul(cs[i], pw);
        if !q_fits(term) {
            None
        } else {
            let acc2 = q_add(acc, term);
            if !q_fits(acc2) {
                None
            } else if i + 1 < cs.len() {
                let pw2 = q_mul(pw, x);
                if !q_fits(pw2) {
                    None
                } else {
                    peval_steps(cs, x, i + 1, acc2, pw2)
                }
            } else {
                Some(acc2)
            }
        }
    }
}

/// What the machine evaluation of a compiled evaluator computes.
pub open spec fn ceval_steps(c: CompiledFunction, x: Frac) -> Option<Frac>
    decreases c,
{
    match c {
        CompiledFunction::Polynomial(v) => peval_steps(rats_view(v@), x, 0, q_int(0), q_int(1)),
        CompiledFunction::Sum(a, b) => match (ceval_steps(*a, x), ceval_steps(*b, x)) {
            (Some(u), Some(w)) => if q_fits(q_add(u, w)) {
                Some(q_add(u, w))
            } else {
                None
            },
            _ => None,
        },
    }
}

/// A compiled evaluator reproduces the function it was compiled from:
/// polynomial node for polynomial node, with the same coefficients.
pub open spec fn compiled_matches(f: Function, c: CompiledFunction) -> bool
    decreases f,
{
    match f {
        Function::Polynomial(p) => match c {
            CompiledFunction::Polynomial(v) => rats_view(v@) == coeffs_of(p@.terms),
            _ => false,
        },
        Function::Sum(s) => match c {
            CompiledFunction::Sum(a, b) => compiled_matches(*s.f1, *a) && compiled_matches(
                *s.f2,
                *b,
            ),
            _ => false,
        },
    }
}

/// A compiled evaluator has exactly the value of its source function.
pub proof fn lemma_compiled_eval(f: Function, c: CompiledFunction, x: Frac)
    requires
        compiled_matches(f, c),
    ensures
        ceval(c, x) == fn_eval(f, x),
    decreases f,
{
    match f {
        Function::Polynomial(p) => {
        },
        Function::Sum(s) => {
            match c {
                CompiledFunction::Sum(a, b) => {
                    lemma_compiled_eval(*s.f1, *a, x);
                    lemma_compiled_eval(*s.f2, *b, x);
                },
                _ => {
                },
            }
        },
    }
}

impl CompiledFunction {
    /// Runs the evaluator at `x`: the exact rational value of the
    /// compiled expression, or an overflow report when some intermediate
    /// value does not fit the machine representation.
    pub fn eval(&self, x: Rat) -> (r: Result<Rat, EvalFunctionError>)
        ensures
            r is Ok <==> ceval_steps(*self, x@) is Some,
            r matches Ok(v) ==> ceval_steps(*self, x@) == Some(v@),
            r matches Err(e) ==> e == EvalFunctionError::Overflow,
        decreases *self,
    {
        match self {
            CompiledFunction::Polynomial(v) => {
                let ghost cs = rats_view(v@);
                let mut result = Rat::zero();
                let mut power = Rat::from_int(1);
                let mut i: usize = 0;
                while i < v.len()
                    invariant
                        *self == CompiledFunction::Polynomial(*v),
                        i <= v.len(),
                        cs == rats_view(v@),
                        cs.len() == v@.len(),
                        peval_steps(cs, x@, 0, q_int(0), q_int(1)) == peval_steps(cs, x@,
                            i as int, result@, power@),
                    decreases v.len() - i,
                {
                    proof {
                        assert(cs[i as int] == v@[i as int]@);
                    }
                    let term = match v[i].mul(power) {
                        Some(t) => t,
                        None => {
                            return Err(EvalFunctionError::Overflow);
                        },
                    };
                    let acc2 = match result.add(term) {
                        Some(a) => a,
                        None => {
                            return Err(EvalFunctionError::Overflow);
                        },
                    };
                    if i + 1 < v.len() {
                        power = match power.mul(x) {
                            Some(p) => p,
                            None => {
                                return Err(EvalFunctionError::Overflow);
                            },
                        };
                    }
                    result = acc2;
                    i += 1;
                }
                Ok(result)
            },
            CompiledFunction::Sum(a, b) => {
                let ra = match a.eval(x) {
                    Ok(ra) => ra,
                    Err(e) => {
                        return Err(e);
                    },
                };
                let rb = match b.eval(x) {
                    Ok(rb) => rb,
                    Err(e) => {
                        return Err(e);
                    },
                };
                match ra.add(rb) {
                    Some(v) => Ok(v),
                    None => Err(EvalFunctionError::Overflow),
                }
            },
        }
    }
}

impl Polynomial {
    /// The recursive check of a polynomial is its own self-check: it has
    /// no children.
    pub fn check_recursive(&self) -> (r: Result<(), FunctionInternalError>)
        ensures
            r == poly_check_from(self@.terms, self@.vu, self@.fu, 0),
            r is Ok ==> poly_wf(self@),
    {
        self.check()
    }

    /// Compiles a well-formed polynomial to its dense coefficient list.
    /// Skips validation: callers must already know the polynomial is well
    /// formed, as freshly integrated trajectories are.
    pub fn compile_unchecked(&self) -> (r: CompiledFunction)
        requires
            poly_wf(self@),
        ensures
            compiled_matches(Function::Polynomial(*self), r),
    {
        let mut coeffs: Vec<Rat> = Vec::new();
        let mut i: usize = 0;
        while i < self.expression.len()
            invariant
                i <= self.expression.len(),
                rats_view(coeffs@) == coeffs_of(self@.terms.take(i as int)),
            decreases self.expression.len() - i,
        {
            let ghost pre = coeffs@;
            coeffs.push(self.expression[i].coefficient);
            proof {
                self@.terms.lemma_map_take_succ(|t: TermV| t.c, i as int);
                pre.lemma_push_map_commute(|rr: Rat| rr@, coeffs@.last());
                assert(self@.terms[i as int] == self.expression@[i as int]@);
                assert(rats_view(coeffs@) =~= coeffs_of(self@.terms.take(i + 1)));
            }
            i += 1;
        }
        proof {
            assert(self@.terms.take(self@.terms.len() as int) =~= self@.terms);
            assert(rats_view(coeffs@) =~= coeffs_of(self@.terms));
        }
        CompiledFunction::Polynomial(coeffs)
    }

    /// Validates, then compiles: a malformed polynomial is refused with
    /// its structural error and never reaches the evaluator.
    pub fn compile(&self) -> (r: Result<CompiledFunction, FunctionInternalError>)
        ensures
            r is Ok <==> poly_check_from(self@.terms, self@.vu, self@.fu, 0) is Ok,
            r matches Err(e) ==> poly_check_from(self@.terms, self@.vu, self@.fu, 0) == Err::<
                (),
                FunctionInternalError,
            >(e),
            r matches Ok(c) ==> poly_wf(self@) && compiled_matches(Function::Polynomial(*self), c),
    {
        match self.check_recursive() {
            Ok(()) => Ok(self.compile_unchecked()),
            Err(e) => Err(e),
        }
    }
}

/// Every node of the tree is declared over variable `v`.
pub open spec fn fn_same_var(f: Function, v: Var) -> bool
    decreases f,
{
    match f {
        Function::Polynomial(p) => p.var == v,
        Function::Sum(s) => s.var == v && fn_same_var(*s.f1, v) && fn_same_var(*s.f2, v),
    }
}

/// Every node whose variable is `respect` can have its output dimension
/// multiplied by its input dimension without leaving machine range.
pub open spec fn fn_dims_mul_ok(f: Function, respect: Var) -> bool
    decreases f,
{
    match f {
        Function::Polynomial(p) => p.var == respect ==> {
            &&& i32::MIN <= p@.fu[0] + p@.vu[0] <= i32::MAX
            &&& i32::MIN <= p@.fu[1] + p@.vu[1] <= i32::MAX
            &&& i32::MIN <= p@.fu[2] + p@.vu[2] <= i32::MAX
        },
        Function::Sum(s) => {
            &&& s.var == respect ==> {
                &&& i32::MIN <= u_view(s.final_units)[0] + u_view(s.var_units)[0] <= i32::MAX
                &&& i32::MIN <= u_view(s.final_units)[1] + u_view(s.var_units)[1] <= i32::MAX
                &&& i32::MIN <= u_view(s.final_units)[2] + u_view(s.var_units)[2] <= i32::MAX
            }
            &&& fn_dims_mul_ok(*s.f1, respect)
            &&& fn_dims_mul_ok(*s.f2, respect)
        },
    }
}

/// Every node whose variable is `respect` can have its output dimension
/// divided by its input dimension without leaving machine range.
pub open spec fn fn_dims_div_ok(f: Function, respect: Var) -> bool
    decreases f,
{
    match f {
        Function::Polynomial(p) => p.var == respect ==> {
            &&& i32::MIN <= p@.fu[0] - p@.vu[0] <= i32::MAX
            &&& i32::MIN <= p@.fu[1] - p@.vu[1] <= i32::MAX
            &&& i32::MIN <= p@.fu[2] - p@.vu[2] <= i32::MAX
        },
        Function::Sum(s) => {
            &&& s.var == respect ==> {
                &&& i32::MIN <= u_view(s.final_units)[0] - u_view(s.var_units)[0] <= i32::MAX
                &&& i32::MIN <= u_view(s.final_units)[1] - u_view(s.var_units)[1] <= i32::MAX
                &&& i32::MIN <= u_view(s.final_units)[2] - u_view(s.var_units)[2] <= i32::MAX
            }
            &&& fn_dims_div_ok(*s.f1, respect)
            &&& fn_dims_div_ok(*s.f2, respect)
        },
    }
}

/// `g` is the integral of `f` with constant `c`: termwise on a
/// polynomial; on a sum, the left child gets constant zero, the right one
/// gets `c`, and the node's output dimension is multiplied by its input
/// dimension.
pub open spec fn fn_int_rel(f: Function, g: Function, c: Frac) -> bool
    decreases f,
{
    match f {
        Function::Polynomial(p) => match g {
            Function::Polynomial(q) => q@ == (PolyV {
                terms: int_terms(p@.terms, c, p@.fu, p@.vu),
                var: p@.var,
                vu: p@.vu,
                fu: u_mul(p@.fu, p@.vu),
            }),
            _ => false,
        },
        Function::Sum(s) => match g {
            Function::Sum(t) => {
                &&& fn_int_rel(*s.f1, *t.f1, q_int(0))
                &&& fn_int_rel(*s.f2, *t.f2, c)
                &&& t.var == s.var
                &&& u_view(t.var_units) == u_view(s.var_units)
                &&& u_view(t.final_units) == u_mul(u_view(s.final_units), u_view(s.var_units))
            },
            _ => false,
        },
    }
}

/// Whether every termwise division of the integral fits the machine.
pub open spec fn fn_int_ok(f: Function) -> bool
    decreases f,
{
    match f {
        Function::Polynomial(p) => int_ok(p@.terms),
        Function::Sum(s) => fn_int_ok(*s.f1) && fn_int_ok(*s.f2),
    }
}

/// `g` is the derivative of `f`: termwise on a polynomial; on a sum, both
/// children differentiated and the node's output dimension divided by its
/// input dimension.
pub open spec fn fn_diff_rel(f: Function, g: Function) -> bool
    decreases f,
{
    match f {
        Function::Polynomial(p) => match g {
            Function::Polynomial(q) => q@ == (PolyV {
                terms: diff_terms(p@.terms),
                var: p@.var,
                vu: p@.vu,
                fu: u_div(p@.fu, p@.vu),
            }),
            _ => false,
        },
        Function::Sum(s) => match g {
            Function::Sum(t) => {
                &&& fn_diff_rel(*s.f1, *t.f1)
                &&& fn_diff_rel(*s.f2, *t.f2)
                &&& t.var == s.var
                &&& u_view(t.var_units) == u_view(s.var_units)
                &&& u_view(t.final_units) == u_div(u_view(s.final_units), u_view(s.var_units))
            },
            _ => false,
        },
    }
}

/// Whether every termwise scaling of the derivative fits the machine.
pub open spec fn fn_diff_ok(f: Function) -> bool
    decreases f,
{
    match f {
        Function::Polynomial(p) => diff_ok(p@.terms),
        Function::Sum(s) => fn_diff_ok(*s.f1) && fn_diff_ok(*s.f2),
    }
}

/// `g` is `f` with every coefficient scaled by `k`.
pub open spec fn fn_stretch_rel(f: Function, g: Function, k: Frac) -> bool
    decreases f,
{
    match f {
        Function::Polynomial(p) => match g {
            Function::Polynomial(q) => q@ == (PolyV {
                terms: stretch_terms(p@.terms, k),
                var: p@.var,
                vu: p@.vu,
                fu: p@.fu,
            }),
            _ => false,
        },
        Function::Sum(s) => match g {
            Function::Sum(t) => {
                &&& fn_stretch_rel(*s.f1, *t.f1, k)
                &&& fn_stretch_rel(*s.f2, *t.f2, k)
                &&& t.var == s.var
                &&& u_view(t.var_units) == u_view(s.var_units)
                &&& u_view(t.final_units) == u_view(s.final_units)
            },
            _ => false,
        },
    }
}

pub open spec fn fn_stretch_ok(f: Function, k: Frac) -> bool
    decreases f,
{
    match f {
        Function::Polynomial(p) => stretch_ok(p@.terms, k),
        Function::Sum(s) => fn_stretch_ok(*s.f1, k) && fn_stretch_ok(*s.f2, k),
    }
}

/// `f` and `g` are structurally the same function: equal models at every
/// polynomial leaf and equal declarations at every sum node.
pub open spec fn fn_equiv(f: Function, g: Function) -> bool
    decreases f,
{
    match f {
        Function::Polynomial(p) => match g {
            Function::Polynomial(q) => q@ == p@,
            _ => false,
        },
        Function::Sum(s) => match g {
            Function::Sum(t) => {
                &&& fn_equiv(*s.f1, *t.f1)
                &&& fn_equiv(*s.f2, *t.f2)
                &&& t.var == s.var
                &&& u_view(t.var_units) == u_view(s.var_units)
                &&& u_view(t.final_units) == u_view(s.final_units)
            },
            _ => false,
        },
    }
}

/// Structurally equal functions take the same value everywhere.
pub proof fn lemma_fn_equiv_eval(f: Function, g: Function, x: Frac)
    requires
        fn_equiv(f, g),
    ensures
        fn_eval(g, x) == fn_eval(f, x),
    decreases f,
{
    match f {
        Function::Polynomial(p) => {
        },
        Function::Sum(s) => {
            match g {
                Function::Sum(t) => {
                    lemma_fn_equiv_eval(*s.f1, *t.f1, x);
                    lemma_fn_equiv_eval(*s.f2, *t.f2, x);
                },
                _ => {
                },
            }
        },
    }
}

/// `g` is `f` shifted vertically: the delta is added to exactly one
/// constant term. On a polynomial it lands on the zero-exponent term; on a
/// sum it goes to the right-hand child only — the same child integration
/// hands its constant to — so the value of the whole tree shifts by the
/// delta exactly once.
pub open spec fn fn_shiftv_rel(f: Function, g: Function, delta: Frac) -> bool
    decreases f,
{
    match f {
        Function::Polynomial(p) => match g {
            Function::Polynomial(q) => q@ == (PolyV {
                terms: shift_vert_terms(p@.terms, delta),
                var: p@.var,
                vu: p@.vu,
                fu: p@.fu,
            }),
            _ => false,
        },
        Function::Sum(s) => match g {
            Function::Sum(t) => {
                &&& fn_equiv(*s.f1, *t.f1)
                &&& fn_shiftv_rel(*s.f2, *t.f2, delta)
                &&& t.var == s.var
                &&& u_view(t.var_units) == u_view(s.var_units)
                &&& u_view(t.final_units) == u_view(s.final_units)
            },
            _ => false,
        },
    }
}

/// The polynomial that receives the vertical shift has a constant term.
pub open spec fn fn_has_const(f: Function) -> bool
    decreases f,
{
    match f {
        Function::Polynomial(p) => p@.terms.len() > 0,
        Function::Sum(s) => fn_has_const(*s.f2),
    }
}

pub open spec fn fn_shiftv_ok(f: Function, delta: Frac) -> bool
    decreases f,
{
    match f {
        Function::Polynomial(p) => q_fits(q_add(p@.terms[0].c, delta)),
        Function::Sum(s) => fn_shiftv_ok(*s.f2, delta),
    }
}

/// `g` is `f` shifted horizontally by `d`: at every polynomial leaf,
/// `x - d` substituted for `x` and re-expanded binomially — the
/// coefficient at exponent `k` is the leaf's scattered `shift_coeff` —
/// and on a sum both children are shifted and the node's declaration is
/// kept.
pub open spec fn fn_shifth_rel(f: Function, g: Function, d: Frac) -> bool
    decreases f,
{
    match f {
        Function::Polynomial(p) => match g {
            Function::Polynomial(q) => {
                &&& q@.var == p@.var
                &&& q@.vu == p@.vu
                &&& q@.fu == p@.fu
                &&& q@.terms.len() == p@.terms.len()
                &&& forall|k: int|
                    0 <= k < p@.terms.len() ==> {
                        &&& (#[trigger] q@.terms[k]).e == k
                        &&& q@.terms[k].u == u_div(p@.fu, u_pow(p@.vu, k))
                        &&& q@.terms[k].c == shift_coeff(p@.terms, k, d, p@.terms.len() as int)
                    }
            },
            _ => false,
        },
        Function::Sum(s) => match g {
            Function::Sum(t) => {
                &&& fn_shifth_rel(*s.f1, *t.f1, d)
                &&& fn_shifth_rel(*s.f2, *t.f2, d)
                &&& t.var == s.var
                &&& u_view(t.var_units) == u_view(s.var_units)
                &&& u_view(t.final_units) == u_view(s.final_units)
            },
            _ => false,
        },
    }
}

/// Whether the horizontal shift fits the machine at every polynomial
/// leaf of the tree.
pub open spec fn fn_shifth_ok(f: Function, d: Frac) -> bool
    decreases f,
{
    match f {
        Function::Polynomial(p) => shift_hor_ok(p@.terms, d, p@.fu, p@.vu),
        Function::Sum(s) => fn_shifth_ok(*s.f1, d) && fn_shifth_ok(*s.f2, d),
    }
}

impl Function {
    /// Analytic derivative of the whole tree with respect to `respect`.
    pub fn differentiated(&self, respect: Var) -> (r: Result<Function, DiffrientiationError>)
        requires
            fn_dims_div_ok(*self, respect),
        ensures
            respect != fn_var(*self) ==> r == Err::<Function, DiffrientiationError>(
                DiffrientiationError::ProhibitedRespect,
            ),
            r matches Ok(g) ==> fn_diff_rel(*self, g),
            r matches Err(e) ==> e == DiffrientiationError::ProhibitedRespect || e
                == DiffrientiationError::Overflow,
            fn_same_var(*self, respect) ==> ((r is Ok) <==> fn_diff_ok(*self)),
            fn_same_var(*self, respect) && r is Err ==> r == Err::<Function, DiffrientiationError>(
                DiffrientiationError::Overflow,
            ),
            r is Ok ==> fn_same_var(*self, respect),
        decreases *self,
    {
        match self {
            Function::Polynomial(p) => match p.differentiated(respect) {
                Ok(q) => Ok(Function::Polynomial(q)),
                Err(e) => Err(e),
            },
            Function::Sum(s) => {
                if respect != s.var {
                    return Err(DiffrientiationError::ProhibitedRespect);
                }
                let g1 = match s.f1.differentiated(respect) {
                    Ok(g1) => g1,
                    Err(e) => {
                        return Err(e);
                    },
                };
                let g2 = match s.f2.differentiated(respect) {
                    Ok(g2) => g2,
                    Err(e) => {
                        return Err(e);
                    },
                };
                Ok(
                    Function::Sum(
                        Box::new(
                            SumFunction {
                                f1: Box::new(g1),
                                f2: Box::new(g2),
                                var: s.var,
                                var_units: s.var_units,
                                final_units: s.final_units.div(s.var_units),
                            },
                        ),
                    ),
                )
            },
        }
    }

    /// Analytic antiderivative of the whole tree with respect to
    /// `respect`, the constant `c` landing on the right-hand child of
    /// every sum, zero on the left-hand one.
    pub fn integrated_c(&self, respect: Var, c: Rat) -> (r: Result<Function, IntegrationError>)
        requires
            fn_dims_mul_ok(*self, respect),
        ensures
            respect != fn_var(*self) ==> r == Err::<Function, IntegrationError>(
                IntegrationError::ProhibitedRespect,
            ),
            r matches Ok(g) ==> fn_int_rel(*self, g, c@),
            r matches Err(e) ==> e == IntegrationError::ProhibitedRespect || e
                == IntegrationError::Overflow,
            fn_same_var(*self, respect) ==> ((r is Ok) <==> fn_int_ok(*self)),
            fn_same_var(*self, respect) && r is Err ==> r == Err::<Function, IntegrationError>(
                IntegrationError::Overflow,
            ),
            r is Ok ==> fn_same_var(*self, respect),
        decreases *self,
    {
        match self {
            Function::Polynomial(p) => match p.integrated_c(respect, c) {
                Ok(q) => Ok(Function::Polynomial(q)),
                Err(e) => Err(e),
            },
            Function::Sum(s) => {
                if respect != s.var {
                    return Err(IntegrationError::ProhibitedRespect);
                }
                let g1 = match s.f1.integrated_c(respect, Rat::zero()) {
                    Ok(g1) => g1,
                    Err(e) => {
                        return Err(e);
                    },
                };
                let g2 = match s.f2.integrated_c(respect, c) {
                    Ok(g2) => g2,
                    Err(e) => {
                        return Err(e);
                    },
                };
                Ok(
                    Function::Sum(
                        Box::new(
                            SumFunction {
                                f1: Box::new(g1),
                                f2: Box::new(g2),
                                var: s.var,
                                var_units: s.var_units,
                                final_units: s.final_units.mul(s.var_units),
                            },
                        ),
                    ),
                )
            },
        }
    }

    /// Antiderivative with integration constant zero.
    pub fn integrated(&self, respect: Var) -> (r: Result<Function, IntegrationError>)
        requires
            fn_dims_mul_ok(*self, respect),
        ensures
            respect != fn_var(*self) ==> r == Err::<Function, IntegrationError>(
                IntegrationError::ProhibitedRespect,
            ),
            r matches Ok(g) ==> fn_int_rel(*self, g, q_int(0)),
            r matches Err(e) ==> e == IntegrationError::ProhibitedRespect || e
                == IntegrationError::Overflow,
            fn_same_var(*self, respect) ==> ((r is Ok) <==> fn_int_ok(*self)),
            fn_same_var(*self, respect) && r is Err ==> r == Err::<Function, IntegrationError>(
                IntegrationError::Overflow,
            ),
            r is Ok ==> fn_same_var(*self, respect),
    {
        self.integrated_c(respect, Rat::zero())
    }

    /// Scales every coefficient in the tree by `n`.
    pub fn stretch_vert(&self, n: Rat) -> (r: Result<Function, EvalFunctionError>)
        ensures
            (r is Ok) <==> fn_stretch_ok(*self, n@),
            r matches Ok(g) ==> fn_stretch_rel(*self, g, n@),
            r matches Err(e) ==> e == EvalFunctionError::Overflow,
        decreases *self,
    {
        match self {
            Function::Polynomial(p) => match p.stretch_vert(n) {
                Ok(q) => Ok(Function::Polynomial(q)),
                Err(e) => Err(e),
            },
            Function::Sum(s) => {
                let g1 = match s.f1.stretch_vert(n) {
                    Ok(g1) => g1,
                    Err(e) => {
                        return Err(e);
                    },
                };
                let g2 = match s.f2.stretch_vert(n) {
                    Ok(g2) => g2,
                    Err(e) => {
                        return Err(e);
                    },
                };
                Ok(
                    Function::Sum(
                        Box::new(
                            SumFunction {
                                f1: Box::new(g1),
                                f2: Box::new(g2),
                                var: s.var,
                                var_units: s.var_units,
                                final_units: s.final_units,
                            },
                        ),
                    ),
                )
            },
        }
    }

    /// A structurally equal copy of the tree.
    pub fn duplicate(&self) -> (r: Function)
        ensures
            fn_equiv(*self, r),
        decreases *self,
    {
        match self {
            Function::Polynomial(p) => {
                let mut terms: Vec<Monomial> = Vec::new();
                let mut i: usize = 0;
                while i < p.expression.len()
                    invariant
                        i <= p.expression.len(),
                        terms@ == p.expression@.take(i as int),
                    decreases p.expression.len() - i,
                {
                    terms.push(p.expression[i]);
                    proof {
                        assert(terms@ =~= p.expression@.take(i + 1));
                    }
                    i += 1;
                }
                proof {
                    assert(p.expression@.take(p.expression@.len() as int) =~= p.expression@);
                }
                Ok::<Function, ()>(
                    Function::Polynomial(
                        Polynomial::init(p.var, p.var_units, p.final_units, terms),
                    ),
                ).unwrap()
            },
            Function::Sum(s) => {
                let g1 = s.f1.duplicate();
                let g2 = s.f2.duplicate();
                Function::Sum(
                    Box::new(
                        SumFunction {
                            f1: Box::new(g1),
                            f2: Box::new(g2),
                            var: s.var,
                            var_units: s.var_units,
                            final_units: s.final_units,
                        },
                    ),
                )
            },
        }
    }

    /// Shifts the tree vertically by `n`: the delta is added to exactly
    /// one constant term, so the value of the whole tree shifts by `n`
    /// once. On a sum, the right-hand child receives it and the left one
    /// is copied unchanged.
    pub fn shift_vert(&self, n: Rat) -> (r: Result<Function, EvalFunctionError>)
        requires
            fn_has_const(*self),
        ensures
            (r is Ok) <==> fn_shiftv_ok(*self, n@),
            r matches Ok(g) ==> fn_shiftv_rel(*self, g, n@),
            r matches Err(e) ==> e == EvalFunctionError::Overflow,
        decreases *self,
    {
        match self {
            Function::Polynomial(p) => match p.shift_vert(n) {
                Ok(q) => Ok(Function::Polynomial(q)),
                Err(e) => Err(e),
            },
            Function::Sum(s) => {
                let g2 = match s.f2.shift_vert(n) {
                    Ok(g2) => g2,
                    Err(e) => {
                        return Err(e);
                    },
                };
                let g1 = s.f1.duplicate();
                Ok(
                    Function::Sum(
                        Box::new(
                            SumFunction {
                                f1: Box::new(g1),
                                f2: Box::new(g2),
                                var: s.var,
                                var_units: s.var_units,
                                final_units: s.final_units,
                            },
                        ),
                    ),
                )
            },
        }
    }

    /// Substitutes `x - n` for `x` throughout the tree and re-expands
    /// every polynomial leaf binomially; a sum shifts both children and
    /// keeps its declaration.
    pub fn shift_hor(&self, n: Rat) -> (r: Result<Function, EvalFunctionError>)
        requires
            fn_wf(*self),
        ensures
            (r is Ok) <==> fn_shifth_ok(*self, n@),
            r matches Ok(g) ==> fn_shifth_rel(*self, g, n@),
            r matches Err(e) ==> e == EvalFunctionError::Overflow,
        decreases *self,
    {
        match self {
            Function::Polynomial(p) => match p.shift_hor(n) {
                Ok(q) => Ok(Function::Polynomial(q)),
                Err(e) => Err(e),
            },
            Function::Sum(s) => {
                let g1 = match s.f1.shift_hor(n) {
                    Ok(g1) => g1,
                    Err(e) => {
                        return Err(e);
                    },
                };
                let g2 = match s.f2.shift_hor(n) {
                    Ok(g2) => g2,
                    Err(e) => {
                        return Err(e);
                    },
                };
                Ok(
                    Function::Sum(
                        Box::new(
                            SumFunction {
                                f1: Box::new(g1),
                                f2: Box::new(g2),
                                var: s.var,
                                var_units: s.var_units,
                                final_units: s.final_units,
                            },
                        ),
                    ),
                )
            },
        }
    }

    /// Compiles a well-formed tree without validating it again.
    pub fn compile_unchecked(&self) -> (r: CompiledFunction)
        requires
            fn_wf(*self),
        ensures
            compiled_matches(*self, r),
        decreases *self,
    {
        match self {
            Function::Polynomial(p) => p.compile_unchecked(),
            Function::Sum(s) => {
                let a = s.f1.compile_unchecked();
                let b = s.f2.compile_unchecked();
                CompiledFunction::Sum(Box::new(a), Box::new(b))
            },
        }
    }

    /// Validates the whole tree, then compiles it: a malformed tree is
    /// refused with its structural error.
    pub fn compile(&self) -> (r: Result<CompiledFunction, FunctionInternalError>)
        ensures
            r is Ok <==> fn_checkrec_spec(*self) is Ok,
            r matches Err(e) ==> fn_checkrec_spec(*self) == Err::<(), FunctionInternalError>(e),
            r matches Ok(c) ==> fn_wf(*self) && compiled_matches(*self, c),
    {
        match self.check_recursive() {
            Ok(()) => Ok(self.compile_unchecked()),
            Err(e) => Err(e),
        }
    }
}

/// Integration preserves well-formedness: the integral of a well-formed
/// tree is well formed, over the same variable and input dimension, with
/// the output dimension multiplied by the input dimension.
pub proof fn lemma_int_wf(f: Function, g: Function, c: Frac)
    requires
        fn_int_rel(f, g, c),
        fn_wf(f),
        q_wf(c),
    ensures
        fn_wf(g),
        fn_var(g) == fn_var(f),
        fn_vu(g) == fn_vu(f),
        fn_fu(g) == u_mul(fn_fu(f), fn_vu(f)),
        forall|v: Var| fn_same_var(f, v) ==> #[trigger] fn_same_var(g, v),
    decreases f,
{
    match f {
        Function::Polynomial(p) => {
            match g {
                Function::Polynomial(q) => {
                    let ts = p@.terms;
                    let nts = q@.terms;
                    assert(nts.len() == ts.len() + 1);
                    assert forall|i: int| 0 <= i < nts.len() implies {
                        &&& (#[trigger] nts[i]).e == i
                        &&& nts[i].u.len() == 3
                        &&& q_wf(nts[i].c)
                        &&& term_dims_ok(nts[i], q@.vu, q@.fu)
                    } by {
                        if i == 0 {
                            assert(nts[0].u =~= u_mul(p@.fu, p@.vu));
                            assert(u_mul(nts[0].u, u_pow(q@.vu, 0)) =~= u_mul(p@.fu, p@.vu));
                        } else {
                            let t = ts[i - 1];
                            assert(nts[i] == int_term(t));
                            assert(t.e == i - 1 && q_wf(t.c) && term_dims_ok(t, p@.vu, p@.fu));
                            assert(t.c.d * (t.e + 1) >= 1) by (nonlinear_arith)
                                requires
                                    t.c.d >= 1,
                                    t.e + 1 >= 1,
                            ;
                            assert(q_wf(q_div(t.c, q_int(t.e + 1))));
                            assert forall|k: int| 0 <= k < 3 implies u_mul(
                                nts[i].u,
                                u_pow(q@.vu, i),
                            )[k] == u_mul(p@.fu, p@.vu)[k] by {
                                assert(t.u[k] + p@.vu[k] * t.e == p@.fu[k]);
                                assert(p@.vu[k] * (t.e + 1) == p@.vu[k] * t.e + p@.vu[k])
                                    by (nonlinear_arith);
                            }
                            assert(u_mul(nts[i].u, u_pow(q@.vu, i)) =~= u_mul(p@.fu, p@.vu));
                        }
                    }
                },
                _ => {
                },
            }
        },
        Function::Sum(s) => {
            match g {
                Function::Sum(t) => {
                    lemma_int_wf(*s.f1, *t.f1, q_int(0));
                    lemma_int_wf(*s.f2, *t.f2, c);
                    assert forall|v: Var| fn_same_var(f, v) implies #[trigger] fn_same_var(
                        g,
                        v,
                    ) by {
                        assert(fn_same_var(*t.f1, v));
                        assert(fn_same_var(*t.f2, v));
                    }
                },
                _ => {
                },
            }
        },
    }
    assert forall|v: Var| fn_same_var(f, v) implies #[trigger] fn_same_var(g, v) by {
        if f is Polynomial {
            assert(fn_var(g) == fn_var(f));
        }
    }
}

/// Vertical stretching preserves well-formedness and all dimensions.
pub proof fn lemma_stretch_wf(f: Function, g: Function, k: Frac)
    requires
        fn_stretch_rel(f, g, k),
        fn_wf(f),
        q_wf(k),
    ensures
        fn_wf(g),
        fn_var(g) == fn_var(f),
        fn_vu(g) == fn_vu(f),
        fn_fu(g) == fn_fu(f),
        forall|v: Var| fn_same_var(f, v) ==> #[trigger] fn_same_var(g, v),
    decreases f,
{
    match f {
        Function::Polynomial(p) => {
            match g {
                Function::Polynomial(q) => {
                    let ts = p@.terms;
                    let nts = q@.terms;
                    assert forall|i: int| 0 <= i < nts.len() implies {
                        &&& (#[trigger] nts[i]).e == i
                        &&& nts[i].u.len() == 3
                        &&& q_wf(nts[i].c)
                        &&& term_dims_ok(nts[i], q@.vu, q@.fu)
                    } by {
                        let t = ts[i];
                        assert(t.c.d * k.d >= 1) by (nonlinear_arith)
                            requires
                                t.c.d >= 1,
                                k.d >= 1,
                        ;
                    }
                },
                _ => {
                },
            }
        },
        Function::Sum(s) => {
            match g {
                Function::Sum(t) => {
                    lemma_stretch_wf(*s.f1, *t.f1, k);
                    lemma_stretch_wf(*s.f2, *t.f2, k);
                    assert forall|v: Var| fn_same_var(f, v) implies #[trigger] fn_same_var(
                        g,
                        v,
                    ) by {
                        assert(fn_same_var(*t.f1, v));
                        assert(fn_same_var(*t.f2, v));
                    }
                },
                _ => {
                },
            }
        },
    }
    assert forall|v: Var| fn_same_var(f, v) implies #[trigger] fn_same_var(g, v) by {
        if f is Polynomial {
            assert(fn_var(g) == fn_var(f));
        }
    }
}

/// In a well-formed tree every node declares the root's dimensions, so a
/// bound on the root's dimension arithmetic covers the whole tree.
pub proof fn lemma_wf_dims_mul_ok(f: Function, respect: Var)
    requires
        fn_wf(f),
        i32::MIN <= fn_fu(f)[0] + fn_vu(f)[0] <= i32::MAX,
        i32::MIN <= fn_fu(f)[1] + fn_vu(f)[1] <= i32::MAX,
        i32::MIN <= fn_fu(f)[2] + fn_vu(f)[2] <= i32::MAX,
    ensures
        fn_dims_mul_ok(f, respect),
    decreases f,
{
    match f {
        Function::Polynomial(p) => {
        },
        Function::Sum(s) => {
            lemma_wf_dims_mul_ok(*s.f1, respect);
            lemma_wf_dims_mul_ok(*s.f2, respect);
        },
    }
}

/// As `lemma_wf_dims_mul_ok`, for division of the dimensions.
pub proof fn lemma_wf_dims_div_ok(f: Function, respect: Var)
    requires
        fn_wf(f),
        i32::MIN <= fn_fu(f)[0] - fn_vu(f)[0] <= i32::MAX,
        i32::MIN <= fn_fu(f)[1] - fn_vu(f)[1] <= i32::MAX,
        i32::MIN <= fn_fu(f)[2] - fn_vu(f)[2] <= i32::MAX,
    ensures
        fn_dims_div_ok(f, respect),
    decreases f,
{
    match f {
        Function::Polynomial(p) => {
        },
        Function::Sum(s) => {
            lemma_wf_dims_div_ok(*s.f1, respect);
            lemma_wf_dims_div_ok(*s.f2, respect);
        },
    }
}

/// What one term adds to the shifted polynomial's coefficient at exponent
/// `k`: `c · C(e, k) · (-d)^(e-k)`, nothing when `k` exceeds the term's
/// exponent.
pub open spec fn shift_contrib(t: TermV, k: int, d: Frac) -> Frac {
    if t.e >= k {
        q_mul(q_mul(t.c, q_int(binom(t.e, k))), q_pow(q_neg(d), (t.e - k) as nat))
    } else {
        q_int(0)
    }
}

/// The shifted polynomial's coefficient at exponent `k`, accumulated over
/// the first `upto` terms in order.
pub open spec fn shift_coeff(ts: Seq<TermV>, k: int, d: Frac, upto: int) -> Frac
    decreases upto,
{
    if upto <= 0 {
        q_int(0)
    } else {
        q_add(shift_coeff(ts, k, d, upto - 1), shift_contrib(ts[upto - 1], k, d))
    }
}

/// The unit coefficient at exponent `k` of a shifted polynomial stays in
/// machine range.
pub open spec fn shift_units_fit(fu: Seq<int>, vu: Seq<int>, k: int) -> bool {
    &&& -0x8000_0000 <= fu[0] - vu[0] * k <= 0x7fff_ffff
    &&& -0x8000_0000 <= fu[1] - vu[1] * k <= 0x7fff_ffff
    &&& -0x8000_0000 <= fu[2] - vu[2] * k <= 0x7fff_ffff
}

/// The machine can shift the polynomial horizontally: the degree is small
/// enough for exact binomial coefficients, every power of the negated
/// delta fits, every scattered contribution and partial sum fits, and
/// every resulting unit coefficient fits.
pub open spec fn shift_hor_ok(ts: Seq<TermV>, d: Frac, fu: Seq<int>, vu: Seq<int>) -> bool {
    &&& ts.len() <= 63
    &&& forall|p: int| 1 <= p < ts.len() ==> q_fits(#[trigger] q_pow(q_neg(d), p as nat))
    &&& forall|ti: int, i: int|
        0 <= i <= ti < ts.len() ==> {
            let c1 = q_mul(ts[ti].c, q_int(#[trigger] binom(ti, i)));
            &&& q_fits(c1)
            &&& q_fits(q_mul(c1, q_pow(q_neg(d), (ti - i) as nat)))
            &&& q_fits(shift_coeff(ts, i, d, ti + 1))
        }
    &&& forall|k: int| 0 <= k < ts.len() ==> #[trigger] shift_units_fit(fu, vu, k)
}

impl Polynomial {
    /// Substitutes `x - n` for `x` and re-expands: each term of exponent
    /// `e` scatters binomially over the exponents up to `e`, and the unit
    /// coefficient at exponent `k` becomes the output dimension divided by
    /// the input dimension to the `k`-th. Degrees above 62 are refused:
    /// their binomial coefficients leave machine range.
    #[verifier::rlimit(100)]
    pub fn shift_hor(&self, n: Rat) -> (r: Result<Polynomial, EvalFunctionError>)
        requires
            poly_wf(self@),
        ensures
            r matches Ok(q) ==> {
                &&& q@.var == self@.var
                &&& q@.vu == self@.vu
                &&& q@.fu == self@.fu
                &&& q@.terms.len() == self@.terms.len()
                &&& forall|k: int|
                    0 <= k < self@.terms.len() ==> {
                        &&& (#[trigger] q@.terms[k]).e == k
                        &&& q@.terms[k].u == u_div(self@.fu, u_pow(self@.vu, k))
                        &&& q@.terms[k].c == shift_coeff(
                            self@.terms,
                            k,
                            n@,
                            self@.terms.len() as int,
                        )
                    }
            },
            r matches Err(e) ==> e == EvalFunctionError::Overflow,
            (r is Ok) <==> shift_hor_ok(self@.terms, n@, self@.fu, self@.vu),
    {
        let ghost ts = self@.terms;
        let ghost d = n@;
        let len = self.expression.len();
        if len > 63 {
            return Err(EvalFunctionError::Overflow);
        }
        let neg_n = n.neg();
        let mut powers: Vec<Rat> = Vec::new();
        powers.push(Rat::from_int(1));
        let mut p: usize = 1;
        while p < len
            invariant
                1 <= p,
                p <= len || p == 1,
                powers@.len() == p,
                neg_n@ == q_neg(n@),
                d == n@,
                ts == self@.terms,
                ts.len() == len,
                forall|u: int| 0 <= u < p ==> (#[trigger] powers@[u])@ == q_pow(q_neg(n@), u as nat),
                forall|u: int| 1 <= u < p ==> q_fits(#[trigger] q_pow(q_neg(d), u as nat)),
            decreases len - p,
        {
            let prev = powers[p - 1];
            proof {
                crate::rational::lemma_q_mul_comm(prev@, neg_n@);
            }
            let next = match prev.mul(neg_n) {
                Some(v) => v,
                None => {
                    proof {
                        let pi = p as int;
                        assert(!q_fits(q_mul(prev@, neg_n@)));
                        assert(q_mul(prev@, neg_n@) == q_mul(neg_n@, prev@));
                        assert(q_pow(q_neg(n@), pi as nat) == q_mul(q_neg(n@), q_pow(q_neg(n@), (
                        pi - 1) as nat)));
                        assert(!q_fits(q_pow(q_neg(n@), pi as nat)));
                        assert(1 <= pi < self@.terms.len());
                        assert(!shift_hor_ok(self@.terms, n@, self@.fu, self@.vu));
                    }
                    return Err(EvalFunctionError::Overflow);
                },
            };
            powers.push(next);
            p += 1;
        }
        let mut acc: Vec<Rat> = Vec::new();
        let mut z: usize = 0;
        while z < len
            invariant
                z <= len,
                acc@.len() == z,
                forall|k: int| 0 <= k < z ==> (#[trigger] acc@[k])@ == q_int(0),
                forall|u: int| 1 <= u < len ==> q_fits(#[trigger] q_pow(q_neg(d), u as nat)),
            decreases len - z,
        {
            acc.push(Rat::zero());
            z += 1;
        }
        proof {
            assert forall|k: int| 0 <= k < len implies (#[trigger] acc@[k])@ == shift_coeff(
                ts,
                k,
                d,
                0,
            ) by {}
        }
        let mut ti: usize = 0;
        while ti < len
            invariant
                ti <= len,
                len <= 63,
                ts == self@.terms,
                ts.len() == len,
                poly_wf(self@),
                d == n@,
                acc@.len() == len,
                powers@.len() == (if len == 0 { 1int } else { len as int }),
                forall|u: int|
                    0 <= u < powers@.len() ==> (#[trigger] powers@[u])@ == q_pow(
                        q_neg(n@),
                        u as nat,
                    ),
                forall|k: int|
                    0 <= k < len ==> (#[trigger] acc@[k])@ == shift_coeff(ts, k, d, ti as int),
                forall|u: int| 1 <= u < len ==> q_fits(#[trigger] q_pow(q_neg(d), u as nat)),
                forall|a: int, b: int|
                    0 <= b <= a < ti ==> {
                        let c1 = q_mul(ts[a].c, q_int(#[trigger] binom(a, b)));
                        &&& q_fits(c1)
                        &&& q_fits(q_mul(c1, q_pow(q_neg(d), (a - b) as nat)))
                        &&& q_fits(shift_coeff(ts, b, d, a + 1))
                    },
            decreases len - ti,
        {
            let m = &self.expression[ti];
            proof {
                assert(ts[ti as int] == m@);
                assert(m@.e == ti as int);
            }
            let mut i: usize = 0;
            while i <= ti
                invariant
                    ti < len,
                    len <= 63,
                    i <= ti + 1,
                    ts == self@.terms,
                    ts.len() == len,
                    poly_wf(self@),
                    d == n@,
                    m == &self.expression[ti as int],
                    ts[ti as int] == m@,
                    m@.e == ti as int,
                    acc@.len() == len,
                    powers@.len() == (if len == 0 { 1int } else { len as int }),
                    forall|u: int|
                        0 <= u < powers@.len() ==> (#[trigger] powers@[u])@ == q_pow(
                            q_neg(n@),
                            u as nat,
                        ),
                    forall|k: int|
                        0 <= k < i ==> (#[trigger] acc@[k])@ == shift_coeff(ts, k, d, ti + 1),
                    forall|k: int|
                        i <= k < len ==> (#[trigger] acc@[k])@ == shift_coeff(ts, k, d, ti as int),
                    forall|u: int| 1 <= u < len ==> q_fits(#[trigger] q_pow(q_neg(d), u as nat)),
                    forall|a: int, b: int|
                        0 <= b <= a < ti ==> {
                            let c1 = q_mul(ts[a].c, q_int(#[trigger] binom(a, b)));
                            &&& q_fits(c1)
                            &&& q_fits(q_mul(c1, q_pow(q_neg(d), (a - b) as nat)))
                            &&& q_fits(shift_coeff(ts, b, d, a + 1))
                        },
                    forall|b: int|
                        0 <= b < i ==> {
                            let c1 = q_mul(ts[ti as int].c, q_int(#[trigger] binom(ti as int, b)));
                            &&& q_fits(c1)
                            &&& q_fits(q_mul(c1, q_pow(q_neg(d), (ti - b) as nat)))
                            &&& q_fits(shift_coeff(ts, b, d, ti + 1))
                        },
                decreases ti + 1 - i,
            {
                proof {
                    lemma_binom_row_bound(ti as int);
                    lemma_pow2i_le(ti as int, 62);
                    lemma_pow2i_62();
                    assert forall|ii: int, jj: int|
                        0 <= jj <= i && jj <= ii <= ti implies #[trigger] binom(ii, jj)
                        <= u64::MAX by {
                        lemma_binom_row_bound(ii);
                        lemma_pow2i_le(ii, 62);
                        lemma_pow2i_62();
                    }
                }
                let b = count_combinations(ti as u64, i as u64);
                let rb = Rat::from_int(b as i64);
                let c1 = match m.coefficient.mul(rb) {
                    Some(v) => v,
                    None => {
                        proof {
                            assert(!q_fits(q_mul(ts[ti as int].c, q_int(
                                binom(ti as int, i as int)))));
                        }
                        return Err(EvalFunctionError::Overflow);
                    },
                };
                let c2 = match c1.mul(powers[ti - i]) {
                    Some(v) => v,
                    None => {
                        proof {
                            assert(c1@ == q_mul(ts[ti as int].c, q_int(
                                binom(ti as int, i as int))));
                            assert(!q_fits(q_mul(c1@, q_pow(q_neg(d), (ti - i) as nat))));
                        }
                        return Err(EvalFunctionError::Overflow);
                    },
                };
                let updated = match acc[i].add(c2) {
                    Some(v) => v,
                    None => {
                        proof {
                            assert(c2@ == shift_contrib(ts[ti as int], i as int, d));
                            assert(q_add(shift_coeff(ts, i as int, d, ti as int), shift_contrib(
                                ts[ti as int], i as int, d)) == shift_coeff(ts, i as int, d, ti
                                + 1));
                            assert(!q_fits(shift_coeff(ts, i as int, d, ti + 1)));
                        }
                        return Err(EvalFunctionError::Overflow);
                    },
                };
                proof {
                    assert(c2@ == shift_contrib(ts[ti as int], i as int, d));
                    assert(updated@ == q_add(shift_coeff(ts, i as int, d, ti as int),
                        shift_contrib(ts[ti as int], i as int, d)));
                    assert(updated@ == shift_coeff(ts, i as int, d, ti + 1));
                    assert(q_fits(shift_coeff(ts, i as int, d, ti + 1)));
                }
                acc.set(i, updated);
                i += 1;
            }
            proof {
                assert forall|k: int| 0 <= k < len implies (#[trigger] acc@[k])@ == shift_coeff(
                    ts,
                    k,
                    d,
                    ti + 1,
                ) by {
                    if k > ti {
                        assert(acc@[k]@ == shift_coeff(ts, k, d, ti as int));
                        assert(shift_contrib(ts[ti as int], k, d) == q_int(0));
                        assert(shift_coeff(ts, k, d, ti + 1) == q_add(
                            shift_coeff(ts, k, d, ti as int),
                            q_int(0),
                        ));
                        let x = shift_coeff(ts, k, d, ti as int);
                        assert(q_add(x, q_int(0)).n == x.n * 1 + 0 * x.d && q_add(x, q_int(0)).d
                            == x.d * 1);
                        assert(x.n * 1 + 0 * x.d == x.n && x.d * 1 == x.d) by (nonlinear_arith);
                        assert(q_add(x, q_int(0)) == x);
                    } else {
                        assert(acc@[k]@ == shift_coeff(ts, k, d, ti + 1));
                    }
                }
            }
            ti += 1;
        }
        let mut new_expression: Vec<Monomial> = Vec::new();
        let mut k: usize = 0;
        while k < len
            invariant
                k <= len,
                len <= 63,
                ts == self@.terms,
                ts.len() == len,
                d == n@,
                acc@.len() == len,
                self@.fu == u_view(self.final_units),
                self@.vu == u_view(self.var_units),
                forall|u: int| 1 <= u < len ==> q_fits(#[trigger] q_pow(q_neg(d), u as nat)),
                forall|a: int, b: int|
                    0 <= b <= a < len ==> {
                        let c1 = q_mul(ts[a].c, q_int(#[trigger] binom(a, b)));
                        &&& q_fits(c1)
                        &&& q_fits(q_mul(c1, q_pow(q_neg(d), (a - b) as nat)))
                        &&& q_fits(shift_coeff(ts, b, d, a + 1))
                    },
                forall|u: int| 0 <= u < k ==> #[trigger] shift_units_fit(self@.fu, self@.vu, u),
                forall|u: int|
                    0 <= u < len ==> (#[trigger] acc@[u])@ == shift_coeff(ts, u, d, len as int),
                new_expression@.len() == k,
                forall|u: int|
                    0 <= u < k ==> {
                        &&& (#[trigger] terms_view(new_expression@)[u]).e == u
                        &&& terms_view(new_expression@)[u].u == u_div(self@.fu, u_pow(self@.vu, u))
                        &&& terms_view(new_expression@)[u].c == shift_coeff(ts, u, d, len as int)
                    },
            decreases len - k,
        {
            proof {
                lemma_i32_mul_fits(self.var_units.exponents[0] as int, k as int);
                lemma_i32_mul_fits(self.var_units.exponents[1] as int, k as int);
                lemma_i32_mul_fits(self.var_units.exponents[2] as int, k as int);
            }
            let u0 = (self.final_units.exponents[0] as i64) - (self.var_units.exponents[0] as i64)
                * (k as i64);
            let u1 = (self.final_units.exponents[1] as i64) - (self.var_units.exponents[1] as i64)
                * (k as i64);
            let u2 = (self.final_units.exponents[2] as i64) - (self.var_units.exponents[2] as i64)
                * (k as i64);
            if !(-0x8000_0000i64 <= u0 && u0 <= 0x7fff_ffffi64 && -0x8000_0000i64 <= u1 && u1
                <= 0x7fff_ffffi64 && -0x8000_0000i64 <= u2 && u2 <= 0x7fff_ffffi64) {
                proof {
                    assert(!shift_units_fit(self@.fu, self@.vu, k as int));
                }
                return Err(EvalFunctionError::Overflow);
            }
            let uc = Units { exponents: [u0 as i32, u1 as i32, u2 as i32] };
            let ghost pre = new_expression@;
            new_expression.push(
                Monomial { coefficient: acc[k], units_coefficient: uc, exponent: k as i32 },
            );
            proof {
                pre.lemma_push_map_commute(|mm: Monomial| mm@, new_expression@.last());
                assert(u_view(uc) =~= u_div(self@.fu, u_pow(self@.vu, k as int)));
                assert forall|u: int|
                    0 <= u < k + 1 implies {
                        &&& (#[trigger] terms_view(new_expression@)[u]).e == u
                        &&& terms_view(new_expression@)[u].u == u_div(self@.fu, u_pow(self@.vu, u))
                        &&& terms_view(new_expression@)[u].c == shift_coeff(ts, u, d, len as int)
                    } by {
                    assert(terms_view(new_expression@) =~= terms_view(pre).push(
                        new_expression@.last()@,
                    ));
                    if u < k {
                        assert(terms_view(new_expression@)[u] == terms_view(pre)[u]);
                    }
                }
                assert(terms_view(new_expression@)[k as int] == Monomial {
                    coefficient: acc@[k as int],
                    units_coefficient: uc,
                    exponent: k as i32,
                }@);
            }
            k += 1;
        }
        Ok(Polynomial::init(self.var, self.var_units, self.final_units, new_expression))
    }
}

/// `2^62` written out.
proof fn lemma_pow2i_62()
    ensures
        pow2i(62) == 0x4000_0000_0000_0000,
{
    reveal_with_fuel(pow2i, 63);
}

/// What the machine evaluation of the derivative of `f` computes at `x`:
/// the coefficients of the termwise derivative, compiled densely and read
/// one step at a time; nothing as soon as one step does not fit.
pub open spec fn diff_csteps(f: Function, x: Frac) -> Option<Frac>
    decreases f,
{
    match f {
        Function::Polynomial(p) => peval_steps(
            coeffs_of(diff_terms(p@.terms)),
            x,
            0,
            q_int(0),
            q_int(1),
        ),
        Function::Sum(s) => match (diff_csteps(*s.f1, x), diff_csteps(*s.f2, x)) {
            (Some(u), Some(w)) => if q_fits(q_add(u, w)) {
                Some(q_add(u, w))
            } else {
                None
            },
            _ => None,
        },
    }
}

/// The termwise derivative of a contiguous term list: the constant term
/// drops and every later term moves down one slot.
pub proof fn lemma_diff_terms_shape(ts: Seq<TermV>)
    requires
        forall|i: int| 0 <= i < ts.len() ==> (#[trigger] ts[i]).e == i,
    ensures
        ts.len() == 0 ==> diff_terms(ts).len() == 0,
        ts.len() > 0 ==> diff_terms(ts).len() == ts.len() - 1,
        forall|i: int|
            0 <= i < ts.len() - 1 ==> #[trigger] diff_terms(ts)[i] == diff_term(ts[i + 1]),
    decreases ts.len(),
{
    if ts.len() > 0 {
        let front = ts.drop_last();
        assert(forall|i: int| 0 <= i < front.len() ==> (#[trigger] front[i]).e == i);
        lemma_diff_terms_shape(front);
        if ts.len() == 1 {
            assert(ts.last().e == 0);
        } else {
            assert(ts.last().e == ts.len() - 1);
            assert(diff_terms(ts) == diff_terms(front).push(diff_term(ts.last())));
            assert forall|i: int|
                0 <= i < ts.len() - 1 implies #[trigger] diff_terms(ts)[i] == diff_term(
                ts[i + 1],
            ) by {
                if i < ts.len() - 2 {
                    assert(front[i + 1] == ts[i + 1]);
                }
            }
        }
    }
}

/// Differentiation preserves well-formedness: the derivative of a
/// well-formed tree is well formed, over the same variable and input
/// dimension, with the output dimension divided by the input dimension.
pub proof fn lemma_diff_wf(f: Function, g: Function)
    requires
        fn_diff_rel(f, g),
        fn_wf(f),
    ensures
        fn_wf(g),
        fn_var(g) == fn_var(f),
        fn_vu(g) == fn_vu(f),
        fn_fu(g) == u_div(fn_fu(f), fn_vu(f)),
        forall|v: Var| fn_same_var(f, v) ==> #[trigger] fn_same_var(g, v),
    decreases f,
{
    match f {
        Function::Polynomial(p) => {
            match g {
                Function::Polynomial(q) => {
                    let ts = p@.terms;
                    let nts = q@.terms;
                    lemma_diff_terms_shape(ts);
                    assert forall|i: int| 0 <= i < nts.len() implies {
                        &&& (#[trigger] nts[i]).e == i
                        &&& nts[i].u.len() == 3
                        &&& q_wf(nts[i].c)
                        &&& term_dims_ok(nts[i], q@.vu, q@.fu)
                    } by {
                        let t = ts[i + 1];
                        assert(nts[i] == diff_term(t));
                        assert(t.e == i + 1 && q_wf(t.c) && term_dims_ok(t, p@.vu, p@.fu));
                        assert(t.c.d * 1 >= 1) by (nonlinear_arith)
                            requires
                                t.c.d >= 1,
                        ;
                        assert forall|k: int| 0 <= k < 3 implies u_mul(nts[i].u, u_pow(q@.vu, i))[k]
                            == u_div(p@.fu, p@.vu)[k] by {
                            assert(t.u[k] + p@.vu[k] * t.e == p@.fu[k]);
                            assert(p@.vu[k] * (t.e - 1) == p@.vu[k] * t.e - p@.vu[k])
                                by (nonlinear_arith);
                        }
                        assert(u_mul(nts[i].u, u_pow(q@.vu, i)) =~= u_div(p@.fu, p@.vu));
                    }
                },
                _ => {
                },
            }
        },
        Function::Sum(s) => {
            match g {
                Function::Sum(t) => {
                    lemma_diff_wf(*s.f1, *t.f1);
                    lemma_diff_wf(*s.f2, *t.f2);
                    assert forall|v: Var| fn_same_var(f, v) implies #[trigger] fn_same_var(
                        g,
                        v,
                    ) by {
                        assert(fn_same_var(*t.f1, v));
                        assert(fn_same_var(*t.f2, v));
                    }
                },
                _ => {
                },
            }
        },
    }
    assert forall|v: Var| fn_same_var(f, v) implies #[trigger] fn_same_var(g, v) by {
        if f is Polynomial {
            assert(fn_var(g) == fn_var(f));
        }
    }
}

/// A well-formed tree passes its own recursive check.
pub proof fn lemma_wf_checkrec_ok(f: Function)
    requires
        fn_wf(f),
    ensures
        fn_checkrec_spec(f) is Ok,
    decreases f,
{
    match f {
        Function::Polynomial(p) => {
            lemma_poly_check_ok(p@.terms, p@.vu, p@.fu, 0);
        },
        Function::Sum(s) => {
            lemma_wf_checkrec_ok(*s.f1);
            lemma_wf_checkrec_ok(*s.f2);
        },
    }
}

/// Running the compiled derivative of `f` computes exactly `diff_csteps`.
pub proof fn lemma_matches_diff_csteps(f: Function, g: Function, cd: CompiledFunction, x: Frac)
    requires
        fn_diff_rel(f, g),
        compiled_matches(g, cd),
    ensures
        ceval_steps(cd, x) == diff_csteps(f, x),
    decreases f,
{
    match f {
        Function::Polynomial(p) => {
        },
        Function::Sum(s) => {
            match g {
                Function::Sum(t) => {
                    match cd {
                        CompiledFunction::Sum(a, b) => {
                            lemma_matches_diff_csteps(*s.f1, *t.f1, *a, x);
                            lemma_matches_diff_csteps(*s.f2, *t.f2, *b, x);
                        },
                        _ => {
                        },
                    }
                },
                _ => {
                },
            }
        },
    }
}

} // verus!
