use kinesim::kinematics::CompiledFunction;
use kinesim::kinematics::Function;
use kinesim::kinematics::FunctionCompatibilityError;
use kinesim::kinematics::FunctionInternalError;
use kinesim::kinematics::Monomial;
use kinesim::kinematics::Polynomial;
use kinesim::kinematics::PolynomialShapeError;
use kinesim::kinematics::SumCompatibilityError;
use kinesim::kinematics::SumFunction;
use kinesim::kinematics::Unit;
use kinesim::kinematics::Units;
use kinesim::kinematics::Var;
use kinesim::kinematics::count_combinations;
use kinesim::rational::Rat;

fn rat(n: i64, d: i64) -> Rat {
    Rat::new(n, d).unwrap()
}

fn eval(c: &CompiledFunction, x: i64) -> Rat {
    c.eval(Rat::from_int(x)).unwrap()
}

#[test]
fn construct_units() {
    let meter = Unit::M;
    let meters = meter.units();
    assert_eq!(meters.exponents[Unit::M as usize], 1);
}

#[test]
fn construct_monomial() {
    let meter = Unit::M;
    let _meters = meter.units();
    let none = Units::empty();
    let slope = Monomial::init(rat(2, 1), none, 1);
    assert_eq!(slope.coefficient, rat(2, 1));
    assert_eq!(slope.units_coefficient.exponents[meter as usize], 0);
    assert_eq!(slope.exponent, 1);
}

#[test]
fn construct_polynomial() {
    let meter = Unit::M;
    let meters = meter.units();
    let none = Units::empty();
    let slope = Monomial::init(rat(2, 1), none, 1);
    let polynomial = Polynomial::init(Var::X, meters, meters, vec![slope]);
    assert_eq!(polynomial.expression[0].coefficient, rat(2, 1));
    assert_eq!(polynomial.expression[0].units_coefficient.exponents[meter as usize], 0);
    assert_eq!(polynomial.expression[0].exponent, 1);
    assert_eq!(polynomial.var, Var::X);
    assert_eq!(polynomial.var_units.exponents[meter as usize], 1);
    assert_eq!(polynomial.final_units.exponents[meter as usize], 1);
}

#[test]
fn polynomial_compile_eval() {
    let meter = Unit::M;
    let meters = meter.units();
    let none = Units::empty();
    let slope = Monomial::init(rat(2, 1), none, 1);
    let intercept = Monomial::init(rat(3, 1), meters, 0);
    let polynomial = Polynomial::init(Var::X, meters, meters, vec![intercept, slope]);
    assert!(eval(&polynomial.compile().unwrap(), 1).eq_val(rat(5, 1)));
}

#[test]
#[should_panic]
fn polynomial_compile_fail() {
    let meter = Unit::M;
    let meters = meter.units();
    let none = Units::empty();
    let slope = Monomial::init(rat(2, 1), none, 1);
    let intercept = Monomial::init(rat(3, 1), meters, 0);
    let polynomial = Polynomial::init(Var::X, meters, meters, vec![intercept, slope]);
    assert!(eval(&polynomial.compile().unwrap(), 1).eq_val(rat(1, 1)));
}

#[test]
fn polynomial_differentiate() {
    let meter = Unit::M;
    let meters = meter.units();
    let none = Units::empty();
    let slope = Monomial::init(rat(2, 1), none, 1);
    let intercept = Monomial::init(rat(3, 1), meters, 0);
    let polynomial = Polynomial::init(Var::X, meters, meters, vec![intercept, slope]);
    let derivative = polynomial.differentiated(Var::X).unwrap();
    assert!(eval(&derivative.compile().unwrap(), 1).eq_val(rat(2, 1)));
}

#[test]
fn polynomial_integrate() {
    let meter = Unit::M;
    let meters = meter.units();
    let none = Units::empty();
    let slope = Monomial::init(rat(2, 1), none, 1);
    let intercept = Monomial::init(rat(3, 1), meters, 0);
    let polynomial = Polynomial::init(Var::X, meters, meters, vec![intercept, slope]);
    let integral = polynomial.integrated_c(Var::X, Rat::zero()).unwrap();
    assert!(eval(&integral.compile().unwrap(), 1).eq_val(rat(4, 1)));
}

// A polynomial evaluated where it was dimensioned: 3 + 2x at 1 is 5, and
// at 0 only the constant survives.
#[test]
fn polynomial_eval_at_zero() {
    let meters = Unit::M.units();
    let none = Units::empty();
    let slope = Monomial::init(rat(2, 1), none, 1);
    let intercept = Monomial::init(rat(3, 1), meters, 0);
    let polynomial = Polynomial::init(Var::X, meters, meters, vec![intercept, slope]);
    let compiled = polynomial.compile().unwrap();
    assert!(eval(&compiled, 0).eq_val(rat(3, 1)));
    assert!(eval(&compiled, 1).eq_val(rat(5, 1)));
}

// A horizontal shift substitutes (x - d): shifting by 1 and evaluating at
// 1 reads the original polynomial at 0.
#[test]
fn polynomial_shift_exact() {
    let meters = Unit::M.units();
    let none = Units::empty();
    let c = Monomial::init(rat(6, 1), meters, 0);
    let b = Monomial::init(rat(9, 1), none, 1);
    let a = Monomial::init(rat(4, 1), meters.pow(-1), 2);
    let polynomial = Polynomial::init(Var::X, meters, meters, vec![c, b, a]);
    let shifted = polynomial.shift_hor(rat(1, 1)).unwrap();
    // shifted(1) = p(1 - 1) = p(0) = 6
    assert!(eval(&shifted.compile().unwrap(), 1).eq_val(rat(6, 1)));
    // shifted(3) = p(2) = 6 + 18 + 16 = 40
    assert!(eval(&shifted.compile().unwrap(), 3).eq_val(rat(40, 1)));
}

// Round-trip shift: shifting by d and then by -d evaluates identically to
// the original at every probed input.
#[test]
fn polynomial_shift_round_trip() {
    let meters = Unit::M.units();
    let none = Units::empty();
    let c = Monomial::init(rat(6, 1), meters, 0);
    let b = Monomial::init(rat(9, 1), none, 1);
    let a = Monomial::init(rat(4, 1), meters.pow(-1), 2);
    let polynomial = Polynomial::init(Var::X, meters, meters, vec![c, b, a]);
    let there = polynomial.shift_hor(rat(7, 2)).unwrap();
    let back = there.shift_hor(rat(-7, 2)).unwrap();
    let orig = polynomial.compile().unwrap();
    let round = back.compile().unwrap();
    for x in [-3i64, -1, 0, 1, 2, 5] {
        assert!(eval(&round, x).eq_val(eval(&orig, x)));
    }
}

// Differentiation inverts integration up to the constant: for several
// constants and inputs the values agree exactly.
#[test]
fn differentiate_integrate_inverse() {
    let meters = Unit::M.units();
    let none = Units::empty();
    let slope = Monomial::init(rat(2, 3), none, 1);
    let intercept = Monomial::init(rat(3, 1), meters, 0);
    let polynomial = Polynomial::init(Var::X, meters, meters, vec![intercept, slope]);
    for cnum in [-5i64, 0, 9] {
        let integral = polynomial.integrated_c(Var::X, rat(cnum.max(1), 1)).unwrap();
        let back = integral.differentiated(Var::X).unwrap();
        let orig = polynomial.compile().unwrap();
        let round = back.compile().unwrap();
        for x in [-2i64, 0, 1, 4] {
            assert!(eval(&round, x).eq_val(eval(&orig, x)));
        }
    }
}

// The self-check names the specific violation: a gap in the exponents, a
// negative exponent, or a term whose dimensions disagree.
#[test]
fn self_check_rejects_malformed() {
    let meters = Unit::M.units();
    let none = Units::empty();
    // exponents [0, 2]: gap at 1
    let gap = Polynomial::init(
        Var::X,
        meters,
        meters,
        vec![
            Monomial::init(rat(1, 1), meters, 0),
            Monomial::init(rat(1, 1), meters.pow(-1), 2),
        ],
    );
    assert_eq!(
        gap.check(),
        Err(FunctionInternalError::SpecificFunctionError(
            PolynomialShapeError::UnsortedPolynomial
        ))
    );
    // a negative exponent
    let negative = Polynomial::init(
        Var::X,
        meters,
        meters,
        vec![Monomial::init(rat(1, 1), meters.pow(2), -1)],
    );
    assert_eq!(
        negative.check(),
        Err(FunctionInternalError::SpecificFunctionError(
            PolynomialShapeError::NegativeExponent
        ))
    );
    // dimensional disagreement: unit coefficient times input^exponent
    // misses the declared output dimension
    let mismatch = Polynomial::init(
        Var::X,
        meters,
        meters,
        vec![Monomial::init(rat(1, 1), meters, 1)],
    );
    assert_eq!(mismatch.check(), Err(FunctionInternalError::UnitMismatch));
    // and a valid polynomial passes
    let fine = Polynomial::init(
        Var::X,
        meters,
        meters,
        vec![Monomial::init(rat(1, 1), meters, 0), Monomial::init(rat(1, 1), none, 1)],
    );
    assert_eq!(fine.check(), Ok(()));
}

// Sum construction fails before any evaluation when the two functions
// disagree on variable, input dimension, or output dimension.
#[test]
fn sum_construction_guards() {
    let meters = Unit::M.units();
    let seconds = Unit::S.units();
    let none = Units::empty();
    let p = |var: Var, vu: Units, fu: Units| {
        Function::Polynomial(Polynomial::init(var, vu, fu, vec![Monomial::init(rat(1, 1), fu, 0)]))
    };
    let base = p(Var::X, meters, meters);
    let other_var = p(Var::T, meters, meters);
    let other_vu = p(Var::X, seconds, meters);
    let other_fu = p(Var::X, meters, none);
    assert_eq!(
        SumFunction::from_compatible(p(Var::X, meters, meters), other_var).err(),
        Some(SumCompatibilityError::DifferentVariables)
    );
    assert_eq!(
        SumFunction::from_compatible(p(Var::X, meters, meters), other_vu).err(),
        Some(SumCompatibilityError::DifferentInputUnits)
    );
    assert_eq!(
        SumFunction::from_compatible(p(Var::X, meters, meters), other_fu).err(),
        Some(SumCompatibilityError::DifferentOutputUnits)
    );
    assert!(SumFunction::from_compatible(base, p(Var::X, meters, meters)).is_ok());
}

// Differentiating or integrating with respect to a foreign variable is a
// calculus error, never silently accepted.
#[test]
fn prohibited_respect() {
    let meters = Unit::M.units();
    let polynomial =
        Polynomial::init(Var::X, meters, meters, vec![Monomial::init(rat(1, 1), meters, 0)]);
    assert!(polynomial.differentiated(Var::T).is_err());
    assert!(polynomial.integrated_c(Var::T, Rat::zero()).is_err());
}

// check_input distinguishes wrong dimensions from a wrong variable.
#[test]
fn check_input_errors() {
    let meters = Unit::M.units();
    let seconds = Unit::S.units();
    let f = Function::Polynomial(Polynomial::init(
        Var::X,
        meters,
        meters,
        vec![Monomial::init(rat(1, 1), meters, 0)],
    ));
    assert_eq!(f.check_input(Var::X, seconds), Err(FunctionCompatibilityError::InvalidUnits));
    assert_eq!(f.check_input(Var::T, meters), Err(FunctionCompatibilityError::InvalidVar));
    assert_eq!(f.check_input(Var::X, meters), Ok(()));
}

// Dimension algebra: (a*b)/b == a, pow(0) is the identity, and
// multiplication commutes.
#[test]
fn units_group_laws() {
    let a = Unit::M.units().mul(Unit::KG.units());
    let b = Unit::S.units().pow(-2);
    assert_eq!(a.mul(b).div(b), a);
    assert_eq!(a.pow(0), Units::empty());
    assert_eq!(a.mul(Units::empty()), a);
    assert_eq!(a.mul(b), b.mul(a));
}

// Exact binomial coefficients, including the edges.
#[test]
fn binomial_coefficients() {
    assert_eq!(count_combinations(5, 2), 10);
    assert_eq!(count_combinations(6, 3), 20);
    assert_eq!(count_combinations(4, 0), 1);
    assert_eq!(count_combinations(4, 4), 1);
    assert_eq!(count_combinations(3, 7), 0);
}

// The binomial computation is exact whenever the result itself fits,
// even where the wide middle of that row of Pascal's triangle would not:
// C(68, 62) is about 1.1e8 while C(68, 34) exceeds the machine word.
#[test]
fn binomial_symmetry_edge() {
    assert_eq!(count_combinations(68, 62), 109_453_344);
    assert_eq!(count_combinations(68, 6), 109_453_344);
}

// Horizontal shift recurses through a sum tree: shifting (2x) + (3 + x)
// by 2 reads the original at x - 2.
#[test]
fn sum_shift_hor_exact() {
    let meters = Unit::M.units();
    let none = Units::empty();
    let slope = Monomial::init(rat(2, 1), none, 1);
    let p1 = Polynomial::init(Var::X, meters, meters, vec![
        Monomial::init(Rat::zero(), meters, 0),
        slope,
    ]);
    let c = Monomial::init(rat(3, 1), meters, 0);
    let s2 = Monomial::init(rat(1, 1), none, 1);
    let p2 = Polynomial::init(Var::X, meters, meters, vec![c, s2]);
    let sum = SumFunction::from_compatible(Function::Polynomial(p1), Function::Polynomial(p2))
        .unwrap();
    let f = Function::Sum(Box::new(sum));
    let shifted = f.shift_hor(rat(2, 1)).unwrap();
    // f(x) = 3x + 3, so shifted(x) = 3(x - 2) + 3
    let compiled = shifted.compile().unwrap();
    assert!(compiled.eval(rat(5, 1)).unwrap().eq_val(rat(12, 1)));
    assert!(compiled.eval(rat(2, 1)).unwrap().eq_val(rat(3, 1)));
}

// A compiled sum evaluates to the sum of its parts.
#[test]
fn sum_evaluates() {
    let meters = Unit::M.units();
    let none = Units::empty();
    let f1 = Function::Polynomial(Polynomial::init(
        Var::X,
        meters,
        meters,
        vec![Monomial::init(rat(3, 1), meters, 0)],
    ));
    let f2 = Function::Polynomial(Polynomial::init(
        Var::X,
        meters,
        meters,
        vec![Monomial::init(rat(1, 1), meters, 0), Monomial::init(rat(2, 1), none, 1)],
    ));
    let sum = Function::Sum(Box::new(SumFunction::from_compatible(f1, f2).unwrap()));
    let compiled = sum.compile().unwrap();
    assert!(eval(&compiled, 2).eq_val(rat(8, 1)));
}
