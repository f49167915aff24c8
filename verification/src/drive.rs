//! Scenario setup: seeds a space with a gravity model and a handful of
//! balls. The presentation loop outside the library drives the result by
//! calling `tick` and reading positions back.

use vstd::prelude::*;

use crate::kinematics::Function;
use crate::kinematics::FunctionError;
use crate::kinematics::Monomial;
use crate::kinematics::Polynomial;
use crate::kinematics::Unit;
use crate::kinematics::Units;
use crate::kinematics::Var;
use crate::kinematics::fn_fu;
use crate::kinematics::fn_vu;
use crate::kinematics::poly_wf;
use crate::kinematics::u_view;
use crate::physics::AccelxyFunction;
use crate::physics::Space;
use crate::physics::accel_fn_ok;
use crate::physics::space_wf;
use crate::rational::Frac;
use crate::rational::Rat;

verus! {

/// The rational `n / d`, for literals the caller knows are in range.
fn rat(n: i64, d: i64) -> (r: Rat)
    requires
        d >= 1,
        n > i64::MIN,
    ensures
        r@ == (Frac { n: n as int, d: d as int }),
{
    match Rat::new(n, d) {
        Some(r) => r,
        None => {
            proof {
                assert(false);
            }
            Rat::zero()
        },
    }
}

/// Gravity near the ground, in meters per second squared.
pub fn gravity_mps2() -> (r: Rat)
    ensures
        r@ == (Frac { n: -10081, d: 100 }),
{
    rat(-10081, 100)
}

/// A constant acceleration function of time, dimensioned as an
/// acceleration; usable as one axis of an independent-axes model.
pub fn constant_accel(value: Rat) -> (r: Function)
    ensures
        accel_fn_ok(r),
    {
    let seconds = Unit::S.units();
    let mps2 = Unit::M.units().div(seconds).div(seconds);
    let term = Monomial::init(value, mps2, 0);
    let mut terms: Vec<Monomial> = Vec::new();
    terms.push(term);
    let p = Polynomial::init(Var::T, seconds, mps2, terms);
    proof {
        use_type_invariant(value);
        value.lemma_wf();
        assert(u_view(mps2) =~= seq![1int, -2int, 0int]);
        assert(u_view(seconds) =~= seq![0int, 1int, 0int]);
        assert forall|i: int| 0 <= i < p@.terms.len() implies {
            &&& (#[trigger] p@.terms[i]).e == i
            &&& p@.terms[i].u.len() == 3
            &&& crate::rational::q_wf(p@.terms[i].c)
            &&& crate::kinematics::term_dims_ok(p@.terms[i], p@.vu, p@.fu)
        } by {
            assert(p@.terms[0] == term@);
            assert(crate::kinematics::u_mul(term@.u, crate::kinematics::u_pow(p@.vu, 0)) =~= p@.fu);
        }
        assert(poly_wf(p@));
    }
    let f = Function::Polynomial(p);
    proof {
        assert(fn_vu(f) == seq![0int, 1int, 0int]);
        assert(fn_fu(f) == seq![1int, -2int, 0int]);
    }
    f
}

/// The first demonstration world: no horizontal acceleration, constant
/// gravity downward, a wide box, and five balls of varying size, mass and
/// restitution, ready to be ticked by the loop outside.
pub fn world1() -> (r: Result<Space, FunctionError>)
    ensures
        r matches Ok(s) ==> space_wf(s),
{
    let ax = constant_accel(Rat::zero());
    let ay = constant_accel(gravity_mps2());
    let a = AccelxyFunction::IndependentFunctions(Box::new(ax), Box::new(ay));
    let mut myspace = Space::blank(a);
    myspace.set_bounds(rat(-50, 1), rat(50, 1), rat(-20, 1), rat(30, 1), Rat::zero());
    let one = rat(1, 1);
    let zero = Rat::zero();
    match myspace.new_ball_unchecked(zero, rat(25, 1), rat(-35, 1), rat(2, 1), one, one, rat(
        8,
        10,
    ), rat(8, 10), [one, zero, zero, one]) {
        Ok(()) => {},
        Err(e) => {
            return Err(e);
        },
    }
    match myspace.new_ball_unchecked(rat(2, 1), rat(13, 1), rat(5, 1), rat(-10, 1), rat(5, 10),
        rat(5, 10), rat(8, 10), rat(8, 10), [zero, one, zero, one]) {
        Ok(()) => {},
        Err(e) => {
            return Err(e);
        },
    }
    match myspace.new_ball_unchecked(rat(4, 1), rat(16, 1), rat(10, 1), rat(-5, 1), rat(3, 1),
        rat(5, 1), rat(8, 10), rat(8, 10), [zero, zero, one, one]) {
        Ok(()) => {},
        Err(e) => {
            return Err(e);
        },
    }
    match myspace.new_ball_unchecked(rat(40, 1), rat(27, 1), rat(100, 1), rat(-50, 1), rat(15, 1),
        rat(5, 1), rat(9999999, 10000000), rat(9999999, 10000000), [rat(1, 10), rat(95, 100), one,
        rat(5, 10)]) {
        Ok(()) => {},
        Err(e) => {
            return Err(e);
        },
    }
    match myspace.new_ball_unchecked(zero, rat(10, 1), rat(15, 1), rat(15, 1), rat(5, 1), one,
        rat(11, 10), rat(11, 10), [rat(9, 10), rat(1, 100), rat(4, 10), one]) {
        Ok(()) => {},
        Err(e) => {
            return Err(e);
        },
    }
    Ok(myspace)
}

} // verus!
