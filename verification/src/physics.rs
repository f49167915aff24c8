//! The simulation core: balls with analytically derived trajectories in a
//! bounded space, advanced tick by tick, with wall bounces and pairwise
//! elastic collisions re-deriving the trajectories as they happen.

use vstd::prelude::*;

use crate::kinematics::CompiledFunction;
use crate::kinematics::EvalFunctionError;
use crate::kinematics::Function;
use crate::kinematics::FunctionCompatibilityError;
use crate::kinematics::FunctionError;
use crate::kinematics::FunctionInternalError;
use crate::kinematics::Units;
use crate::kinematics::Unit;
use crate::kinematics::Var;
use crate::kinematics::ceval_steps;
use crate::kinematics::compiled_matches;
use crate::kinematics::DiffrientiationError;
use crate::kinematics::diff_csteps;
use crate::kinematics::fn_checkrec_spec;
use crate::kinematics::fn_diff_ok;
use crate::kinematics::fn_diff_rel;
use crate::kinematics::lemma_diff_wf;
use crate::kinematics::lemma_matches_diff_csteps;
use crate::kinematics::lemma_wf_checkrec_ok;
use crate::kinematics::fn_dims_div_ok;
use crate::kinematics::fn_fu;
use crate::kinematics::fn_int_ok;
use crate::kinematics::fn_int_rel;
use crate::kinematics::fn_stretch_ok;
use crate::kinematics::int_terms;
use crate::kinematics::int_ok;
use crate::kinematics::stretch_ok;
use crate::kinematics::u_mul;
use crate::kinematics::fn_same_var;
use crate::kinematics::fn_stretch_rel;
use crate::kinematics::fn_vu;
use crate::kinematics::fn_var;
use crate::kinematics::fn_wf;
use crate::kinematics::IntegrationError;
use crate::kinematics::SumCompatibilityError;
use crate::kinematics::SumFunction;
use crate::kinematics::lemma_int_wf;
use crate::kinematics::lemma_stretch_wf;
use crate::kinematics::lemma_wf_dims_div_ok;
use crate::kinematics::lemma_wf_dims_mul_ok;
use crate::rational::Frac;
use crate::rational::Rat;
use crate::rational::q_add;
use crate::rational::q_fits;
use crate::rational::q_int;
use crate::rational::q_mul;
use crate::rational::q_neg;
use crate::rational::q_div;
use crate::rational::q_le;
use crate::rational::q_lt;
use crate::rational::q_sub;

verus! {

/// A ball's compiled numeric evaluator for one axis.
#[derive(Debug)]
pub struct FunctionCache {
    pub closure: CompiledFunction,
}

impl FunctionCache {
    pub fn new(closure: CompiledFunction) -> (r: Self)
        ensures
            r.closure == closure,
    {
        FunctionCache { closure }
    }
}

impl Default for FunctionCache {
    /// The identity evaluator: coefficient list `[0, 1]`, so the value at
    /// `x` is `x` itself.
    fn default() -> (r: Self)
        ensures
            r.closure matches CompiledFunction::Polynomial(v) && crate::kinematics::rats_view(v@)
                == seq![q_int(0), q_int(1)],
    {
        let mut v: Vec<Rat> = Vec::new();
        v.push(Rat::zero());
        v.push(Rat::from_int(1));
        proof {
            assert(crate::kinematics::rats_view(v@) =~= seq![q_int(0), q_int(1)]);
        }
        FunctionCache { closure: CompiledFunction::Polynomial(v) }
    }
}

/// A possibly absent new time anchor for one axis.
#[derive(Clone, Copy)]
pub enum MaybeNew {
    Update(Rat),
    NoUpdate,
}

/// Which axes a re-derivation request covers, and the new time anchor of
/// each covered axis.
#[derive(Clone, Copy)]
pub struct Recalculate {
    pub val: (MaybeNew, MaybeNew),
}

impl Recalculate {
    /// Re-derive the X axis only, anchored at `t`.
    pub fn x(t: Rat) -> (r: Self)
        ensures
            r.val.0 == MaybeNew::Update(t),
            r.val.1 == MaybeNew::NoUpdate,
    {
        Recalculate { val: (MaybeNew::Update(t), MaybeNew::NoUpdate) }
    }

    /// Re-derive the Y axis only, anchored at `t`.
    pub fn y(t: Rat) -> (r: Self)
        ensures
            r.val.0 == MaybeNew::NoUpdate,
            r.val.1 == MaybeNew::Update(t),
    {
        Recalculate { val: (MaybeNew::NoUpdate, MaybeNew::Update(t)) }
    }

    /// Re-derive both axes.
    pub fn xy(tx: Rat, ty: Rat) -> (r: Self)
        ensures
            r.val.0 == MaybeNew::Update(tx),
            r.val.1 == MaybeNew::Update(ty),
    {
        Recalculate { val: (MaybeNew::Update(tx), MaybeNew::Update(ty)) }
    }

    /// Re-derive neither axis.
    pub fn no_update() -> (r: Self)
        ensures
            r.val.0 == MaybeNew::NoUpdate,
            r.val.1 == MaybeNew::NoUpdate,
    {
        Recalculate { val: (MaybeNew::NoUpdate, MaybeNew::NoUpdate) }
    }
}

/// A direction in the plane, held as the exact cosine and sine of the
/// heading. Trigonometric conversion from degrees or radians is the
/// presentation layer's concern; the core only ever scales by these two
/// components.
#[derive(Debug, Clone, Copy)]
pub struct Angle {
    pub ux: Rat,
    pub uy: Rat,
}

impl Angle {
    /// The direction with the given cosine and sine components.
    pub fn from_components(ux: Rat, uy: Rat) -> (r: Angle)
        ensures
            r.ux == ux,
            r.uy == uy,
    {
        Angle { ux, uy }
    }

    /// The X and Y components of a magnitude `h` pointed along this
    /// direction.
    pub fn xy_h(&self, h: Rat) -> (r: Result<(Rat, Rat), EvalFunctionError>)
        ensures
            r is Ok <==> q_fits(q_mul(self.ux@, h@)) && q_fits(q_mul(self.uy@, h@)),
            r matches Ok(p) ==> p.0@ == q_mul(self.ux@, h@) && p.1@ == q_mul(self.uy@, h@),
            r matches Err(e) ==> e == EvalFunctionError::Overflow,
    {
        let x = match self.ux.mul(h) {
            Some(x) => x,
            None => {
                return Err(EvalFunctionError::Overflow);
            },
        };
        let y = match self.uy.mul(h) {
            Some(y) => y,
            None => {
                return Err(EvalFunctionError::Overflow);
            },
        };
        Ok((x, y))
    }
}

/// How the accelerations of the two axes are specified: one function per
/// axis, one magnitude function with a fixed direction, or the composite
/// of two models whose derived trajectories are summed per axis.
pub enum AccelxyFunction {
    ParterFunctionVector(Box<Function>, Angle),
    IndependentFunctions(Box<Function>, Box<Function>),
    CompositeAcceleration(Box<AccelxyFunction>, Box<AccelxyFunction>),
}

/// A ball: position, shape and mass, restitution coefficients, a color for
/// the presentation layer, and per-axis cached symbolic trajectories with
/// their compiled evaluators and time anchors.
pub struct Ball {
    x: Rat,
    y: Rat,
    radius: Rat,
    mass: Rat,
    ground_bounce: Rat,
    free_bounce: Rat,
    fx: FunctionCache,
    fy: FunctionCache,
    cached_x_dyn_function: Option<Function>,
    cached_y_dyn_function: Option<Function>,
    x_reftime: Rat,
    y_reftime: Rat,
    color: [Rat; 4],
}


impl Ball {
    /// Model accessors for the private fields, usable in public contracts.
    pub closed spec fn spec_x(self) -> Rat {
        self.x
    }

    pub closed spec fn spec_y(self) -> Rat {
        self.y
    }

    pub closed spec fn spec_radius(self) -> Rat {
        self.radius
    }

    pub closed spec fn spec_mass(self) -> Rat {
        self.mass
    }

    pub closed spec fn spec_ground_bounce(self) -> Rat {
        self.ground_bounce
    }

    pub closed spec fn spec_free_bounce(self) -> Rat {
        self.free_bounce
    }

    pub closed spec fn spec_fx(self) -> FunctionCache {
        self.fx
    }

    pub closed spec fn spec_fy(self) -> FunctionCache {
        self.fy
    }

    pub closed spec fn spec_cached_x(self) -> Option<Function> {
        self.cached_x_dyn_function
    }

    pub closed spec fn spec_cached_y(self) -> Option<Function> {
        self.cached_y_dyn_function
    }

    pub closed spec fn spec_x_reftime(self) -> Rat {
        self.x_reftime
    }

    pub closed spec fn spec_y_reftime(self) -> Rat {
        self.y_reftime
    }

    pub closed spec fn spec_color(self) -> [Rat; 4] {
        self.color
    }
}

/// The dimension vectors of a trajectory stay tiny: they come from at most
/// two integrations of the fixed acceleration dimensions.
pub open spec fn traj_dims_ok(f: Function) -> bool {
    &&& fn_vu(f).len() == 3
    &&& fn_fu(f).len() == 3
    &&& -16 <= fn_vu(f)[0] <= 16
    &&& -16 <= fn_vu(f)[1] <= 16
    &&& -16 <= fn_vu(f)[2] <= 16
    &&& -16 <= fn_fu(f)[0] <= 16
    &&& -16 <= fn_fu(f)[1] <= 16
    &&& -16 <= fn_fu(f)[2] <= 16
}

/// A usable cached trajectory: well formed, with bounded dimensions.
pub open spec fn traj_ok(f: Function) -> bool {
    fn_wf(f) && traj_dims_ok(f)
}

/// The X-axis cache is present and consistent: a usable symbolic function
/// whose compiled evaluator matches it.
pub open spec fn ball_x_ok(b: Ball) -> bool {
    match b.spec_cached_x() {
        Some(f) => traj_ok(f) && compiled_matches(f, b.spec_fx().closure),
        None => false,
    }
}

/// As `ball_x_ok`, for the Y axis.
pub open spec fn ball_y_ok(b: Ball) -> bool {
    match b.spec_cached_y() {
        Some(f) => traj_ok(f) && compiled_matches(f, b.spec_fy().closure),
        None => false,
    }
}

/// A ball whose symbolic trajectories and compiled evaluators are jointly
/// consistent on both axes.
pub open spec fn ball_wf(b: Ball) -> bool {
    ball_x_ok(b) && ball_y_ok(b)
}

impl Ball {
    /// Refreshes both compiled evaluators from the cached symbolic
    /// functions, without re-validating them: the caches must be known
    /// well formed, as freshly derived trajectories are.
    pub fn soft_update_unchecked(&mut self)
        requires
            match old(self).spec_cached_x() {
                Some(f) => fn_wf(f),
                None => false,
            },
            match old(self).spec_cached_y() {
                Some(f) => fn_wf(f),
                None => false,
            },
        ensures
            final(self).spec_cached_x() == old(self).spec_cached_x(),
            final(self).spec_cached_y() == old(self).spec_cached_y(),
            compiled_matches(
                final(self).spec_cached_x()->Some_0,
                final(self).spec_fx().closure,
            ),
            compiled_matches(
                final(self).spec_cached_y()->Some_0,
                final(self).spec_fy().closure,
            ),
            final(self).spec_x() == old(self).spec_x(),
            final(self).spec_y() == old(self).spec_y(),
            final(self).spec_radius() == old(self).spec_radius(),
            final(self).spec_mass() == old(self).spec_mass(),
            final(self).spec_ground_bounce() == old(self).spec_ground_bounce(),
            final(self).spec_free_bounce() == old(self).spec_free_bounce(),
            final(self).spec_x_reftime() == old(self).spec_x_reftime(),
            final(self).spec_y_reftime() == old(self).spec_y_reftime(),
            final(self).spec_color() == old(self).spec_color(),
    {
        let cx = match &self.cached_x_dyn_function {
            Some(f) => f.compile_unchecked(),
            None => {
                proof {
                    assert(false);
                }
                FunctionCache::default().closure
            },
        };
        let cy = match &self.cached_y_dyn_function {
            Some(f) => f.compile_unchecked(),
            None => {
                proof {
                    assert(false);
                }
                FunctionCache::default().closure
            },
        };
        self.fx = FunctionCache::new(cx);
        self.fy = FunctionCache::new(cy);
    }

    /// Refreshes both compiled evaluators, validating the cached symbolic
    /// functions first; a malformed cache is reported and nothing is
    /// changed.
    pub fn soft_update(&mut self) -> (r: Result<(), FunctionInternalError>)
        requires
            old(self).spec_cached_x() is Some,
            old(self).spec_cached_y() is Some,
        ensures
            r is Ok <==> fn_checkrec_spec(old(self).spec_cached_x()->Some_0) is Ok
                && fn_checkrec_spec(old(self).spec_cached_y()->Some_0) is Ok,
            fn_checkrec_spec(old(self).spec_cached_x()->Some_0) is Err ==> r == fn_checkrec_spec(
                old(self).spec_cached_x()->Some_0,
            ),
            fn_checkrec_spec(old(self).spec_cached_x()->Some_0) is Ok && fn_checkrec_spec(
                old(self).spec_cached_y()->Some_0,
            ) is Err ==> r == fn_checkrec_spec(old(self).spec_cached_y()->Some_0),
            r is Ok ==> {
                &&& final(self).spec_cached_x() == old(self).spec_cached_x()
                &&& final(self).spec_cached_y() == old(self).spec_cached_y()
                &&& compiled_matches(
                    final(self).spec_cached_x()->Some_0,
                    final(self).spec_fx().closure,
                )
                &&& compiled_matches(
                    final(self).spec_cached_y()->Some_0,
                    final(self).spec_fy().closure,
                )
                &&& fn_wf(final(self).spec_cached_x()->Some_0)
                &&& fn_wf(final(self).spec_cached_y()->Some_0)
            },
            r is Err ==> *final(self) == *old(self),
            final(self).spec_x() == old(self).spec_x(),
            final(self).spec_y() == old(self).spec_y(),
            final(self).spec_x_reftime() == old(self).spec_x_reftime(),
            final(self).spec_y_reftime() == old(self).spec_y_reftime(),
            final(self).spec_cached_x() == old(self).spec_cached_x(),
            final(self).spec_cached_y() == old(self).spec_cached_y(),
    {
        let cx = match &self.cached_x_dyn_function {
            Some(f) => match f.compile() {
                Ok(cx) => cx,
                Err(e) => {
                    return Err(e);
                },
            },
            None => {
                proof {
                    assert(false);
                }
                FunctionCache::default().closure
            },
        };
        let cy = match &self.cached_y_dyn_function {
            Some(f) => match f.compile() {
                Ok(cy) => cy,
                Err(e) => {
                    return Err(e);
                },
            },
            None => {
                proof {
                    assert(false);
                }
                FunctionCache::default().closure
            },
        };
        self.fx = FunctionCache::new(cx);
        self.fy = FunctionCache::new(cy);
        Ok(())
    }

    pub fn get_x(&self) -> (r: Rat)
        ensures
            r == self.spec_x(),
    {
        self.x
    }

    pub fn get_y(&self) -> (r: Rat)
        ensures
            r == self.spec_y(),
    {
        self.y
    }

    pub fn get_radius(&self) -> (r: Rat)
        ensures
            r == self.spec_radius(),
    {
        self.radius
    }

    pub fn get_mass(&self) -> (r: Rat)
        ensures
            r == self.spec_mass(),
    {
        self.mass
    }

    pub fn get_ground_bounce(&self) -> (r: Rat)
        ensures
            r == self.spec_ground_bounce(),
    {
        self.ground_bounce
    }

    pub fn get_free_bounce(&self) -> (r: Rat)
        ensures
            r == self.spec_free_bounce(),
    {
        self.free_bounce
    }

    pub fn get_color(&self) -> (r: [Rat; 4])
        ensures
            r == self.spec_color(),
    {
        self.color
    }

    /// The X velocity at absolute time `t`: the derivative of the cached
    /// X trajectory, compiled and evaluated at `t` minus the axis anchor.
    /// Succeeds exactly when `ball_vx_at` has a value; a trajectory that is
    /// not a uniform function of time is a compatibility error, anything
    /// else that fails is an overflow.
    pub fn get_vx(&self, t: Rat) -> (r: Result<Rat, FunctionError>)
        requires
            ball_x_ok(*self),
        ensures
            r is Ok <==> ball_vx_at(*self, t@) is Some,
            r matches Ok(v) ==> ball_vx_at(*self, t@) == Some(v@),
            fn_var(self.spec_cached_x()->Some_0) != Var::T ==> r == Err::<Rat, FunctionError>(
                FunctionError::FunctionCompatibilityError(FunctionCompatibilityError::InvalidVar),
            ),
            fn_var(self.spec_cached_x()->Some_0) == Var::T && fn_same_var(
                self.spec_cached_x()->Some_0,
                Var::T,
            ) && r is Err ==> r == Err::<Rat, FunctionError>(
                FunctionError::EvalFunctionError(EvalFunctionError::Overflow),
            ),
    {
        let f = match &self.cached_x_dyn_function {
            Some(f) => f,
            None => {
                proof {
                    assert(false);
                }
                return Err(FunctionError::EvalFunctionError(EvalFunctionError::OutsideDomain));
            },
        };
        proof {
            lemma_wf_dims_div_ok(*f, Var::T);
        }
        let d = match f.differentiated(Var::T) {
            Ok(d) => d,
            Err(e) => {
                return Err(
                    match e {
                        DiffrientiationError::ProhibitedRespect => FunctionError::FunctionCompatibilityError(
                            FunctionCompatibilityError::InvalidVar,
                        ),
                        _ => FunctionError::EvalFunctionError(EvalFunctionError::Overflow),
                    },
                );
            },
        };
        proof {
            lemma_diff_wf(*f, d);
            lemma_wf_checkrec_ok(d);
        }
        let cd = match d.compile() {
            Ok(cd) => cd,
            Err(e) => {
                proof {
                    assert(false);
                }
                return Err(FunctionError::FunctionInternalError(e));
            },
        };
        proof {
            lemma_matches_diff_csteps(*f, d, cd, q_sub(t@, self.x_reftime@));
        }
        let dt = match t.sub(self.x_reftime) {
            Some(dt) => dt,
            None => {
                return Err(FunctionError::EvalFunctionError(EvalFunctionError::Overflow));
            },
        };
        match cd.eval(dt) {
            Ok(v) => Ok(v),
            Err(e) => Err(FunctionError::EvalFunctionError(e)),
        }
    }

    /// The Y velocity at absolute time `t`, symmetric to `get_vx`.
    pub fn get_vy(&self, t: Rat) -> (r: Result<Rat, FunctionError>)
        requires
            ball_y_ok(*self),
        ensures
            r is Ok <==> ball_vy_at(*self, t@) is Some,
            r matches Ok(v) ==> ball_vy_at(*self, t@) == Some(v@),
            fn_var(self.spec_cached_y()->Some_0) != Var::T ==> r == Err::<Rat, FunctionError>(
                FunctionError::FunctionCompatibilityError(FunctionCompatibilityError::InvalidVar),
            ),
            fn_var(self.spec_cached_y()->Some_0) == Var::T && fn_same_var(
                self.spec_cached_y()->Some_0,
                Var::T,
            ) && r is Err ==> r == Err::<Rat, FunctionError>(
                FunctionError::EvalFunctionError(EvalFunctionError::Overflow),
            ),
    {
        let f = match &self.cached_y_dyn_function {
            Some(f) => f,
            None => {
                proof {
                    assert(false);
                }
                return Err(FunctionError::EvalFunctionError(EvalFunctionError::OutsideDomain));
            },
        };
        proof {
            lemma_wf_dims_div_ok(*f, Var::T);
        }
        let d = match f.differentiated(Var::T) {
            Ok(d) => d,
            Err(e) => {
                return Err(
                    match e {
                        DiffrientiationError::ProhibitedRespect => FunctionError::FunctionCompatibilityError(
                            FunctionCompatibilityError::InvalidVar,
                        ),
                        _ => FunctionError::EvalFunctionError(EvalFunctionError::Overflow),
                    },
                );
            },
        };
        proof {
            lemma_diff_wf(*f, d);
            lemma_wf_checkrec_ok(d);
        }
        let cd = match d.compile() {
            Ok(cd) => cd,
            Err(e) => {
                proof {
                    assert(false);
                }
                return Err(FunctionError::FunctionInternalError(e));
            },
        };
        proof {
            lemma_matches_diff_csteps(*f, d, cd, q_sub(t@, self.y_reftime@));
        }
        let dt = match t.sub(self.y_reftime) {
            Some(dt) => dt,
            None => {
                return Err(FunctionError::EvalFunctionError(EvalFunctionError::Overflow));
            },
        };
        match cd.eval(dt) {
            Ok(v) => Ok(v),
            Err(e) => Err(FunctionError::EvalFunctionError(e)),
        }
    }
}


/// Whether the second of two integrations of `f` fits the machine: the
/// termwise division succeeds on the once-integrated term list, with the
/// integration constants placed the way the tree integration places them.
pub open spec fn second_int_ok(f: Function, v0: Frac) -> bool
    decreases f,
{
    match f {
        Function::Polynomial(p) => int_ok(int_terms(p@.terms, v0, p@.fu, p@.vu)),
        Function::Sum(s) => second_int_ok(*s.f1, q_int(0)) && second_int_ok(*s.f2, v0),
    }
}

/// The machine can integrate `f` twice, injecting `v0` first.
pub open spec fn int2_ok(f: Function, v0: Frac) -> bool {
    fn_int_ok(f) && second_int_ok(f, v0)
}

/// Whether scaling the double integral of `f` by `k` fits the machine.
pub open spec fn int2_stretch_ok(f: Function, v0: Frac, p0: Frac, k: Frac) -> bool
    decreases f,
{
    match f {
        Function::Polynomial(p) => stretch_ok(
            int_terms(int_terms(p@.terms, v0, p@.fu, p@.vu), p0, u_mul(p@.fu, p@.vu), p@.vu),
            k,
        ),
        Function::Sum(s) => int2_stretch_ok(*s.f1, q_int(0), q_int(0), k) && int2_stretch_ok(
            *s.f2,
            v0,
            p0,
            k,
        ),
    }
}

/// The integral's own termwise-integration condition, read back through
/// the integration relation.
proof fn lemma_second_int_ok(f: Function, g: Function, c: Frac)
    requires
        fn_int_rel(f, g, c),
    ensures
        fn_int_ok(g) <==> second_int_ok(f, c),
    decreases f,
{
    match f {
        Function::Polynomial(p) => {
        },
        Function::Sum(s) => {
            match g {
                Function::Sum(t) => {
                    lemma_second_int_ok(*s.f1, *t.f1, q_int(0));
                    lemma_second_int_ok(*s.f2, *t.f2, c);
                },
                _ => {
                },
            }
        },
    }
}

/// The stretch condition on the double integral, read back through the
/// two integration relations.
proof fn lemma_int2_stretch_ok(f: Function, m: Function, dd: Function, v0: Frac, p0: Frac, k: Frac)
    requires
        fn_int_rel(f, m, v0),
        fn_int_rel(m, dd, p0),
    ensures
        fn_stretch_ok(dd, k) <==> int2_stretch_ok(f, v0, p0, k),
    decreases f,
{
    match f {
        Function::Polynomial(p) => {
        },
        Function::Sum(s) => {
            match m {
                Function::Sum(tm) => {
                    match dd {
                        Function::Sum(td) => {
                            lemma_int2_stretch_ok(*s.f1, *tm.f1, *td.f1, q_int(0), q_int(0), k);
                            lemma_int2_stretch_ok(*s.f2, *tm.f2, *td.f2, v0, p0, k);
                        },
                        _ => {
                        },
                    }
                },
                _ => {
                },
            }
        },
    }
}

/// The variable class of the position functions a model derives: time for
/// independent axes, arc length for a polar model, and for a composite the
/// shared class of its parts, if they share one.
pub open spec fn model_axis_var(a: AccelxyFunction) -> Option<Var>
    decreases a,
{
    match a {
        AccelxyFunction::IndependentFunctions(ax, ay) => Some(Var::T),
        AccelxyFunction::ParterFunctionVector(f, ang) => Some(Var::S),
        AccelxyFunction::CompositeAcceleration(a1, a2) => if model_axis_var(*a1) is Some
            && model_axis_var(*a1) == model_axis_var(*a2) {
            model_axis_var(*a1)
        } else {
            None
        },
    }
}

/// The input dimension a derived position function of the given class has.
pub open spec fn axis_class_vu(v: Var) -> Seq<int> {
    if v == Var::T {
        seq![0int, 1int, 0int]
    } else {
        seq![1int, 0int, 0int]
    }
}

/// The output dimension a derived position function of the given class
/// has: twice-integrated acceleration dimensions.
pub open spec fn axis_class_fu(v: Var) -> Seq<int> {
    if v == Var::T {
        seq![1int, 0int, 0int]
    } else {
        seq![3int, -2int, 0int]
    }
}

/// The machine can derive both position functions from the model with the
/// given initial conditions: every integration and projection fits, and a
/// composite's parts derive functions of one shared class.
pub open spec fn derive_ok(a: AccelxyFunction, xi: Frac, yi: Frac, vxi: Frac, vyi: Frac) -> bool
    decreases a,
{
    match a {
        AccelxyFunction::IndependentFunctions(ax, ay) => int2_ok(*ax, vxi) && int2_ok(*ay, vyi),
        AccelxyFunction::ParterFunctionVector(f, ang) => {
            let svx = q_mul(vxi, ang.ux@);
            let svy = q_mul(vyi, ang.uy@);
            let sv = q_add(svx, svy);
            let spx = q_mul(xi, ang.ux@);
            let spy = q_mul(yi, ang.uy@);
            let sp = q_add(spx, spy);
            &&& q_fits(svx)
            &&& q_fits(svy)
            &&& q_fits(sv)
            &&& q_fits(spx)
            &&& q_fits(spy)
            &&& q_fits(sp)
            &&& int2_ok(*f, sv)
            &&& int2_stretch_ok(*f, sv, sp, ang.ux@)
            &&& int2_stretch_ok(*f, sv, sp, ang.uy@)
        },
        AccelxyFunction::CompositeAcceleration(a1, a2) => {
            &&& derive_ok(*a1, xi, yi, vxi, vyi)
            &&& derive_ok(*a2, xi, yi, vxi, vyi)
            &&& model_axis_var(a) is Some
        },
    }
}

/// An axis acceleration function: a well-formed function of time, in
/// acceleration dimensions.
pub open spec fn accel_fn_ok(f: Function) -> bool {
    &&& fn_wf(f)
    &&& fn_var(f) == Var::T
    &&& fn_same_var(f, Var::T)
    &&& fn_vu(f) == seq![0int, 1int, 0int]
    &&& fn_fu(f) == seq![1int, -2int, 0int]
}

/// A polar magnitude function: a well-formed function of arc length, in
/// acceleration dimensions.
pub open spec fn polar_fn_ok(f: Function) -> bool {
    &&& fn_wf(f)
    &&& fn_var(f) == Var::S
    &&& fn_same_var(f, Var::S)
    &&& fn_vu(f) == seq![1int, 0int, 0int]
    &&& fn_fu(f) == seq![1int, -2int, 0int]
}

/// A usable acceleration model: every leaf function is well formed and
/// declared over the dimensions its variant expects.
pub open spec fn accel_model_ok(a: AccelxyFunction) -> bool
    decreases a,
{
    match a {
        AccelxyFunction::ParterFunctionVector(f, ang) => polar_fn_ok(*f),
        AccelxyFunction::IndependentFunctions(ax, ay) => accel_fn_ok(*ax) && accel_fn_ok(*ay),
        AccelxyFunction::CompositeAcceleration(a1, a2) => accel_model_ok(*a1) && accel_model_ok(
            *a2,
        ),
    }
}

/// `gx` is the X-axis position function derived from model `a` with the
/// given initial position and velocity: for independent axes, the X
/// acceleration integrated twice, injecting the velocity then the
/// position; for a polar model, the double integral of the magnitude over
/// arc length, with the initial values projected onto the direction,
/// scaled by the direction's cosine; for a composite, the sum of the two
/// sub-derivations.
pub open spec fn axis_rel_x(
    a: AccelxyFunction,
    xi: Frac,
    yi: Frac,
    vxi: Frac,
    vyi: Frac,
    gx: Function,
) -> bool
    decreases a,
{
    match a {
        AccelxyFunction::IndependentFunctions(ax, ay) => exists|m: Function|
            #[trigger] fn_int_rel(*ax, m, vxi) && fn_int_rel(m, gx, xi),
        AccelxyFunction::ParterFunctionVector(f, ang) => {
            let sv = q_add(q_mul(vxi, ang.ux@), q_mul(vyi, ang.uy@));
            let sp = q_add(q_mul(xi, ang.ux@), q_mul(yi, ang.uy@));
            exists|m: Function, dd: Function|
                {
                    &&& fn_int_rel(*f, m, sv)
                    &&& #[trigger] fn_int_rel(m, dd, sp)
                    &&& fn_stretch_rel(dd, gx, ang.ux@)
                }
        },
        AccelxyFunction::CompositeAcceleration(a1, a2) => match gx {
            Function::Sum(sx) => axis_rel_x(*a1, xi, yi, vxi, vyi, *sx.f1) && axis_rel_x(
                *a2,
                xi,
                yi,
                vxi,
                vyi,
                *sx.f2,
            ),
            _ => false,
        },
    }
}

/// As `axis_rel_x`, for the Y axis (sine component for the polar model).
pub open spec fn axis_rel_y(
    a: AccelxyFunction,
    xi: Frac,
    yi: Frac,
    vxi: Frac,
    vyi: Frac,
    gy: Function,
) -> bool
    decreases a,
{
    match a {
        AccelxyFunction::IndependentFunctions(ax, ay) => exists|m: Function|
            #[trigger] fn_int_rel(*ay, m, vyi) && fn_int_rel(m, gy, yi),
        AccelxyFunction::ParterFunctionVector(f, ang) => {
            let sv = q_add(q_mul(vxi, ang.ux@), q_mul(vyi, ang.uy@));
            let sp = q_add(q_mul(xi, ang.ux@), q_mul(yi, ang.uy@));
            exists|m: Function, dd: Function|
                {
                    &&& fn_int_rel(*f, m, sv)
                    &&& #[trigger] fn_int_rel(m, dd, sp)
                    &&& fn_stretch_rel(dd, gy, ang.uy@)
                }
        },
        AccelxyFunction::CompositeAcceleration(a1, a2) => match gy {
            Function::Sum(sy) => axis_rel_y(*a1, xi, yi, vxi, vyi, *sy.f1) && axis_rel_y(
                *a2,
                xi,
                yi,
                vxi,
                vyi,
                *sy.f2,
            ),
            _ => false,
        },
    }
}

/// Maps an integration failure into the function-algebra error space.
fn map_int_err(e: IntegrationError) -> (r: FunctionError)
    ensures
        e == IntegrationError::ProhibitedRespect ==> r
            == FunctionError::FunctionCompatibilityError(FunctionCompatibilityError::InvalidVar),
        e != IntegrationError::ProhibitedRespect ==> r == FunctionError::EvalFunctionError(
            EvalFunctionError::Overflow,
        ),
{
    match e {
        IntegrationError::ProhibitedRespect => FunctionError::FunctionCompatibilityError(
            FunctionCompatibilityError::InvalidVar,
        ),
        _ => FunctionError::EvalFunctionError(EvalFunctionError::Overflow),
    }
}


/// Integrates an acceleration function of time twice, injecting the
/// initial velocity as the first integration constant and the initial
/// position as the second: the closed-form position function.
fn integrate_twice(f: &Function, v0: Rat, p0: Rat) -> (r: Result<Function, FunctionError>)
    requires
        accel_fn_ok(*f),
    ensures
        r matches Ok(g) ==> (exists|m: Function|
            #[trigger] fn_int_rel(*f, m, v0@) && fn_int_rel(m, g, p0@)) && traj_ok(g),
        (r is Ok) <==> int2_ok(*f, v0@),
        r matches Ok(g) ==> fn_var(g) == Var::T && fn_same_var(g, Var::T) && fn_vu(g)
            == axis_class_vu(Var::T) && fn_fu(g) == axis_class_fu(Var::T),
{
    proof {
        lemma_wf_dims_mul_ok(*f, Var::T);
    }
    let m = match f.integrated_c(Var::T, v0) {
        Ok(m) => m,
        Err(e) => {
            return Err(map_int_err(e));
        },
    };
    proof {
        use_type_invariant(v0);
        v0.lemma_wf();
        use_type_invariant(p0);
        p0.lemma_wf();
        lemma_int_wf(*f, m, v0@);
        assert(fn_fu(m) =~= seq![1int, -1int, 0int]);
        lemma_wf_dims_mul_ok(m, Var::T);
    }
    proof {
        lemma_second_int_ok(*f, m, v0@);
    }
    let g = match m.integrated_c(Var::T, p0) {
        Ok(g) => g,
        Err(e) => {
            return Err(map_int_err(e));
        },
    };
    proof {
        lemma_int_wf(m, g, p0@);
        assert(fn_fu(g) =~= seq![1int, 0int, 0int]);
        assert(fn_vu(g) =~= seq![0int, 1int, 0int]);
    }
    Ok(g)
}

/// Derives the pair of position functions of time that model `a` gives a
/// body starting at `(xi, yi)` with velocity `(vxi, vyi)`.
fn derive_pair(a: &AccelxyFunction, xi: Rat, yi: Rat, vxi: Rat, vyi: Rat) -> (r: Result<
    (Function, Function),
    FunctionError,
>)
    requires
        accel_model_ok(*a),
    ensures
        r matches Ok(p) ==> {
            &&& axis_rel_x(*a, xi@, yi@, vxi@, vyi@, p.0)
            &&& axis_rel_y(*a, xi@, yi@, vxi@, vyi@, p.1)
            &&& traj_ok(p.0)
            &&& traj_ok(p.1)
        },
        (r is Ok) <==> derive_ok(*a, xi@, yi@, vxi@, vyi@),
        r matches Ok(p) ==> {
            let cls = model_axis_var(*a)->Some_0;
            &&& model_axis_var(*a) is Some
            &&& fn_var(p.0) == cls && fn_vu(p.0) == axis_class_vu(cls) && fn_fu(p.0)
                == axis_class_fu(cls)
            &&& fn_var(p.1) == cls && fn_vu(p.1) == axis_class_vu(cls) && fn_fu(p.1)
                == axis_class_fu(cls)
        },
    decreases *a,
{
    match a {
        AccelxyFunction::IndependentFunctions(ax, ay) => {
            let gx = match integrate_twice(ax, vxi, xi) {
                Ok(gx) => gx,
                Err(e) => {
                    return Err(e);
                },
            };
            let gy = match integrate_twice(ay, vyi, yi) {
                Ok(gy) => gy,
                Err(e) => {
                    return Err(e);
                },
            };
            Ok((gx, gy))
        },
        AccelxyFunction::ParterFunctionVector(f, ang) => {
            let svx = match vxi.mul(ang.ux) {
                Some(v) => v,
                None => {
                    return Err(FunctionError::EvalFunctionError(EvalFunctionError::Overflow));
                },
            };
            let svy = match vyi.mul(ang.uy) {
                Some(v) => v,
                None => {
                    return Err(FunctionError::EvalFunctionError(EvalFunctionError::Overflow));
                },
            };
            let sv = match svx.add(svy) {
                Some(v) => v,
                None => {
                    return Err(FunctionError::EvalFunctionError(EvalFunctionError::Overflow));
                },
            };
            let spx = match xi.mul(ang.ux) {
                Some(v) => v,
                None => {
                    return Err(FunctionError::EvalFunctionError(EvalFunctionError::Overflow));
                },
            };
            let spy = match yi.mul(ang.uy) {
                Some(v) => v,
                None => {
                    return Err(FunctionError::EvalFunctionError(EvalFunctionError::Overflow));
                },
            };
            let sp = match spx.add(spy) {
                Some(v) => v,
                None => {
                    return Err(FunctionError::EvalFunctionError(EvalFunctionError::Overflow));
                },
            };
            proof {
                lemma_wf_dims_mul_ok(**f, Var::S);
            }
            let m = match f.integrated_c(Var::S, sv) {
                Ok(m) => m,
                Err(e) => {
                    return Err(map_int_err(e));
                },
            };
            proof {
                use_type_invariant(sv);
                sv.lemma_wf();
                use_type_invariant(sp);
                sp.lemma_wf();
                lemma_int_wf(**f, m, sv@);
                assert(fn_fu(m) =~= seq![2int, -2int, 0int]);
                lemma_wf_dims_mul_ok(m, Var::S);
                lemma_second_int_ok(**f, m, sv@);
            }
            let dd = match m.integrated_c(Var::S, sp) {
                Ok(dd) => dd,
                Err(e) => {
                    return Err(map_int_err(e));
                },
            };
            proof {
                lemma_int_wf(m, dd, sp@);
                assert(fn_fu(dd) =~= seq![3int, -2int, 0int]);
                assert(fn_vu(dd) =~= seq![1int, 0int, 0int]);
                lemma_int2_stretch_ok(**f, m, dd, sv@, sp@, ang.ux@);
                lemma_int2_stretch_ok(**f, m, dd, sv@, sp@, ang.uy@);
            }
            let gx = match dd.stretch_vert(ang.ux) {
                Ok(gx) => gx,
                Err(_) => {
                    return Err(FunctionError::EvalFunctionError(EvalFunctionError::Overflow));
                },
            };
            let gy = match dd.stretch_vert(ang.uy) {
                Ok(gy) => gy,
                Err(_) => {
                    return Err(FunctionError::EvalFunctionError(EvalFunctionError::Overflow));
                },
            };
            proof {
                use_type_invariant(ang.ux);
                ang.ux.lemma_wf();
                use_type_invariant(ang.uy);
                ang.uy.lemma_wf();
                lemma_stretch_wf(dd, gx, ang.ux@);
                lemma_stretch_wf(dd, gy, ang.uy@);
            }
            Ok((gx, gy))
        },
        AccelxyFunction::CompositeAcceleration(a1, a2) => {
            let p1 = match derive_pair(a1, xi, yi, vxi, vyi) {
                Ok(p1) => p1,
                Err(e) => {
                    return Err(e);
                },
            };
            let p2 = match derive_pair(a2, xi, yi, vxi, vyi) {
                Ok(p2) => p2,
                Err(e) => {
                    return Err(e);
                },
            };
            let (x1f, y1f) = p1;
            let (x2f, y2f) = p2;
            let sx = match SumFunction::from_compatible(x1f, x2f) {
                Ok(sx) => sx,
                Err(_) => {
                    return Err(
                        FunctionError::FunctionInternalError(FunctionInternalError::UnitMismatch),
                    );
                },
            };
            let sy = match SumFunction::from_compatible(y1f, y2f) {
                Ok(sy) => sy,
                Err(_) => {
                    return Err(
                        FunctionError::FunctionInternalError(FunctionInternalError::UnitMismatch),
                    );
                },
            };
            let gx = Function::Sum(Box::new(sx));
            let gy = Function::Sum(Box::new(sy));
            Ok((gx, gy))
        },
    }
}

/// The machine can carry out a re-derivation request: nothing to do, or
/// the flagged integrations fit. For independent axes only the flagged
/// axis's function is integrated; the other variants derive both position
/// functions whenever any axis is flagged.
pub open spec fn hard_update_ok(
    a: AccelxyFunction,
    xi: Frac,
    yi: Frac,
    vxi: Frac,
    vyi: Frac,
    t: Recalculate,
) -> bool {
    match a {
        AccelxyFunction::IndependentFunctions(ax, ay) => (t.val.0 is Update ==> int2_ok(*ax, vxi))
            && (t.val.1 is Update ==> int2_ok(*ay, vyi)),
        _ => (t.val.0 is Update || t.val.1 is Update) ==> derive_ok(a, xi, yi, vxi, vyi),
    }
}

impl Ball {
    /// Re-derives the cached trajectory of each axis the request covers
    /// from the acceleration model, with `(xi, yi)` as the new initial
    /// position and `(vxi, vyi)` as the new initial velocity, resets that
    /// axis's time anchor, and refreshes both compiled evaluators. The
    /// other axis's cached function and anchor are left untouched. On an
    /// error nothing changes.
    pub fn hard_update_unchecked(
        &mut self,
        a_ref: &AccelxyFunction,
        xi: Rat,
        yi: Rat,
        vxi: Rat,
        vyi: Rat,
        t: Recalculate,
    ) -> (r: Result<(), FunctionError>)
        requires
            accel_model_ok(*a_ref),
            t.val.0 is NoUpdate ==> ball_x_ok(*old(self)),
            t.val.1 is NoUpdate ==> ball_y_ok(*old(self)),
        ensures
            r is Ok ==> {
                &&& ball_wf(*final(self))
                &&& (t.val.0 matches MaybeNew::Update(tx) ==> final(self).spec_x_reftime() == tx
                    && final(self).spec_cached_x() is Some && axis_rel_x(*a_ref, xi@, yi@, vxi@,
                    vyi@, final(self).spec_cached_x()->Some_0))
                &&& (t.val.0 is NoUpdate ==> final(self).spec_cached_x() == old(self).spec_cached_x() && final(self).spec_x_reftime() == old(self).spec_x_reftime())
                &&& (t.val.1 matches MaybeNew::Update(ty) ==> final(self).spec_y_reftime() == ty
                    && final(self).spec_cached_y() is Some && axis_rel_y(*a_ref, xi@, yi@, vxi@,
                    vyi@, final(self).spec_cached_y()->Some_0))
                &&& (t.val.1 is NoUpdate ==> final(self).spec_cached_y() == old(self).spec_cached_y() && final(self).spec_y_reftime() == old(self).spec_y_reftime())
            },
            r is Err ==> *final(self) == *old(self),
            (r is Ok) <==> hard_update_ok(*a_ref, xi@, yi@, vxi@, vyi@, t),
            final(self).spec_x() == old(self).spec_x(),
            final(self).spec_y() == old(self).spec_y(),
            final(self).spec_radius() == old(self).spec_radius(),
            final(self).spec_mass() == old(self).spec_mass(),
            final(self).spec_ground_bounce() == old(self).spec_ground_bounce(),
            final(self).spec_free_bounce() == old(self).spec_free_bounce(),
            final(self).spec_color() == old(self).spec_color(),
    {
        let nx: Option<Function>;
        let ny: Option<Function>;
        match a_ref {
            AccelxyFunction::IndependentFunctions(ax, ay) => {
                nx = match t.val.0 {
                    MaybeNew::Update(_) => {
                        let g = match integrate_twice(ax, vxi, xi) {
                            Ok(g) => g,
                            Err(e) => {
                                return Err(e);
                            },
                        };
                        Some(g)
                    },
                    MaybeNew::NoUpdate => None,
                };
                ny = match t.val.1 {
                    MaybeNew::Update(_) => {
                        let g = match integrate_twice(ay, vyi, yi) {
                            Ok(g) => g,
                            Err(e) => {
                                return Err(e);
                            },
                        };
                        Some(g)
                    },
                    MaybeNew::NoUpdate => None,
                };
            },
            _ => {
                let need_x = matches!(t.val.0, MaybeNew::Update(_));
                let need_y = matches!(t.val.1, MaybeNew::Update(_));
                if need_x || need_y {
                    let p = match derive_pair(a_ref, xi, yi, vxi, vyi) {
                        Ok(p) => p,
                        Err(e) => {
                            return Err(e);
                        },
                    };
                    let (gx, gy) = p;
                    nx = if need_x {
                        Some(gx)
                    } else {
                        None
                    };
                    ny = if need_y {
                        Some(gy)
                    } else {
                        None
                    };
                } else {
                    nx = None;
                    ny = None;
                }
            },
        }
        match t.val.0 {
            MaybeNew::Update(tx) => {
                match nx {
                    Some(g) => {
                        self.cached_x_dyn_function = Some(g);
                        self.x_reftime = tx;
                    },
                    None => {
                        proof {
                            assert(false);
                        }
                    },
                }
            },
            MaybeNew::NoUpdate => {},
        }
        match t.val.1 {
            MaybeNew::Update(ty) => {
                match ny {
                    Some(g) => {
                        self.cached_y_dyn_function = Some(g);
                        self.y_reftime = ty;
                    },
                    None => {
                        proof {
                            assert(false);
                        }
                    },
                }
            },
            MaybeNew::NoUpdate => {},
        }
        self.soft_update_unchecked();
        Ok(())
    }

    /// The checked entry point of the re-derivation protocol; the
    /// derivation itself already validates what it builds, so this
    /// forwards to the unchecked form.
    pub fn hard_update(
        &mut self,
        a_ref: &AccelxyFunction,
        xi: Rat,
        yi: Rat,
        vxi: Rat,
        vyi: Rat,
        t: Recalculate,
    ) -> (r: Result<(), FunctionError>)
        requires
            accel_model_ok(*a_ref),
            t.val.0 is NoUpdate ==> ball_x_ok(*old(self)),
            t.val.1 is NoUpdate ==> ball_y_ok(*old(self)),
        ensures
            r is Ok ==> {
                &&& ball_wf(*final(self))
                &&& (t.val.0 matches MaybeNew::Update(tx) ==> final(self).spec_x_reftime() == tx
                    && final(self).spec_cached_x() is Some && axis_rel_x(*a_ref, xi@, yi@, vxi@,
                    vyi@, final(self).spec_cached_x()->Some_0))
                &&& (t.val.0 is NoUpdate ==> final(self).spec_cached_x() == old(self).spec_cached_x() && final(self).spec_x_reftime() == old(self).spec_x_reftime())
                &&& (t.val.1 matches MaybeNew::Update(ty) ==> final(self).spec_y_reftime() == ty
                    && final(self).spec_cached_y() is Some && axis_rel_y(*a_ref, xi@, yi@, vxi@,
                    vyi@, final(self).spec_cached_y()->Some_0))
                &&& (t.val.1 is NoUpdate ==> final(self).spec_cached_y() == old(self).spec_cached_y() && final(self).spec_y_reftime() == old(self).spec_y_reftime())
            },
            r is Err ==> *final(self) == *old(self),
            (r is Ok) <==> hard_update_ok(*a_ref, xi@, yi@, vxi@, vyi@, t),
            final(self).spec_x() == old(self).spec_x(),
            final(self).spec_y() == old(self).spec_y(),
            final(self).spec_radius() == old(self).spec_radius(),
            final(self).spec_mass() == old(self).spec_mass(),
            final(self).spec_ground_bounce() == old(self).spec_ground_bounce(),
            final(self).spec_free_bounce() == old(self).spec_free_bounce(),
            final(self).spec_color() == old(self).spec_color(),
    {
        self.hard_update_unchecked(a_ref, xi, yi, vxi, vyi, t)
    }
}

/// The exit velocity of the first of two bodies colliding elastically in
/// one dimension, in the exact order the machine computes it.
pub open spec fn collide_a(m1: Frac, m2: Frac, v1: Frac, v2: Frac) -> Frac {
    q_add(
        q_div(q_mul(q_mul(q_int(2), m2), v2), q_add(m1, m2)),
        q_mul(q_div(q_sub(m1, m2), q_add(m1, m2)), v1),
    )
}

/// The exit velocity of the second body.
pub open spec fn collide_b(m1: Frac, m2: Frac, v1: Frac, v2: Frac) -> Frac {
    q_sub(
        q_div(q_mul(q_mul(q_int(2), m1), v1), q_add(m1, m2)),
        q_mul(q_div(q_sub(m1, m2), q_add(m1, m2)), v2),
    )
}

/// Whether the machine can evaluate the elastic-collision formula: the
/// masses must not cancel and every intermediate value must fit.
pub open spec fn collide_ok(m1: Frac, m2: Frac, v1: Frac, v2: Frac) -> bool {
    let msum = q_add(m1, m2);
    let mdiff = q_sub(m1, m2);
    let q = q_div(mdiff, msum);
    &&& q_fits(msum)
    &&& msum.n != 0
    &&& q_fits(q_mul(q_int(2), m2))
    &&& q_fits(q_mul(q_mul(q_int(2), m2), v2))
    &&& q_fits(q_div(q_mul(q_mul(q_int(2), m2), v2), msum))
    &&& q_fits(mdiff)
    &&& q_fits(q)
    &&& q_fits(q_mul(q, v1))
    &&& q_fits(collide_a(m1, m2, v1, v2))
    &&& q_fits(q_mul(q_int(2), m1))
    &&& q_fits(q_mul(q_mul(q_int(2), m1), v1))
    &&& q_fits(q_div(q_mul(q_mul(q_int(2), m1), v1), msum))
    &&& q_fits(q_mul(q, v2))
    &&& q_fits(collide_b(m1, m2, v1, v2))
}

/// The guard on the parallel velocity components: the pair is resolved
/// exactly when the second body's component along the collision axis is
/// less than the first's, which is genuine closing motion. Both components
/// are scaled by the same positive squared length, which preserves the
/// comparison, so a pair that is separating or drifting in parallel is
/// left alone.
pub open spec fn approaching(p1: Frac, p2: Frac) -> bool {
    q_lt(p2, p1)
}

/// One pair of balls is a broad-phase collision candidate when the
/// squared distance between their centers is at most the square of the
/// (nonnegative) sum of their radii.
pub open spec fn pair_touches(b1: Ball, b2: Ball) -> bool {
    let dx = q_sub(b2.spec_x()@, b1.spec_x()@);
    let dy = q_sub(b2.spec_y()@, b1.spec_y()@);
    let d2 = q_add(q_mul(dx, dx), q_mul(dy, dy));
    let su = q_add(b1.spec_radius()@, b2.spec_radius()@);
    su.n >= 0 && q_le(d2, q_mul(su, su))
}

/// The two balls' velocity projections onto their center-to-center
/// vector, scaled by its length: the parallel components the collision
/// resolution works with. Meaningful where both velocities exist.
pub open spec fn pair_ps(b1: Ball, b2: Ball, t: Frac) -> (Frac, Frac) {
    let dx = q_sub(b2.spec_x()@, b1.spec_x()@);
    let dy = q_sub(b2.spec_y()@, b1.spec_y()@);
    let vx1 = ball_vx_at(b1, t)->Some_0;
    let vy1 = ball_vy_at(b1, t)->Some_0;
    let vx2 = ball_vx_at(b2, t)->Some_0;
    let vy2 = ball_vy_at(b2, t)->Some_0;
    (q_add(q_mul(vx1, dx), q_mul(vy1, dy)), q_add(q_mul(vx2, dx), q_mul(vy2, dy)))
}

/// Whether the two balls are genuinely closing in on each other along the
/// collision axis at time `t`.
pub open spec fn pair_approaching(b1: Ball, b2: Ball, t: Frac) -> bool {
    approaching(pair_ps(b1, b2, t).0, pair_ps(b1, b2, t).1)
}

/// The velocities the two balls leave a resolved collision with: the
/// elastic formula applied to the parallel components, each result scaled
/// by its ball's free-bounce coefficient, recombined with the unchanged
/// perpendicular components. Returned as (vx1, vy1, vx2, vy2).
pub open spec fn collision_outcome_v(b1: Ball, b2: Ball, t: Frac) -> (Frac, Frac, Frac, Frac) {
    let dx = q_sub(b2.spec_x()@, b1.spec_x()@);
    let dy = q_sub(b2.spec_y()@, b1.spec_y()@);
    let l2 = q_add(q_mul(dx, dx), q_mul(dy, dy));
    let vx1 = ball_vx_at(b1, t)->Some_0;
    let vy1 = ball_vy_at(b1, t)->Some_0;
    let vx2 = ball_vx_at(b2, t)->Some_0;
    let vy2 = ball_vy_at(b2, t)->Some_0;
    let p1 = pair_ps(b1, b2, t).0;
    let p2 = pair_ps(b1, b2, t).1;
    let m1 = b1.spec_mass()@;
    let m2 = b2.spec_mass()@;
    let p1n = q_mul(collide_a(m1, m2, p1, p2), b1.spec_free_bounce()@);
    let p2n = q_mul(collide_b(m1, m2, p1, p2), b2.spec_free_bounce()@);
    (
        q_add(vx1, q_div(q_mul(q_sub(p1n, p1), dx), l2)),
        q_add(vy1, q_div(q_mul(q_sub(p1n, p1), dy), l2)),
        q_add(vx2, q_div(q_mul(q_sub(p2n, p2), dx), l2)),
        q_add(vy2, q_div(q_mul(q_sub(p2n, p2), dy), l2)),
    )
}

/// A ball after a resolved collision: same position, shape, mass,
/// restitution and color, both axes re-anchored at `t`, and both cached
/// trajectories derived from the model with the old position and the
/// collision's exit velocity `(vx, vy)` as initial conditions.
pub open spec fn collision_updated(
    b_old: Ball,
    b_new: Ball,
    a: AccelxyFunction,
    t: Rat,
    vx: Frac,
    vy: Frac,
) -> bool {
    &&& b_new.spec_x() == b_old.spec_x()
    &&& b_new.spec_y() == b_old.spec_y()
    &&& b_new.spec_radius() == b_old.spec_radius()
    &&& b_new.spec_mass() == b_old.spec_mass()
    &&& b_new.spec_ground_bounce() == b_old.spec_ground_bounce()
    &&& b_new.spec_free_bounce() == b_old.spec_free_bounce()
    &&& b_new.spec_color() == b_old.spec_color()
    &&& b_new.spec_x_reftime() == t
    &&& b_new.spec_y_reftime() == t
    &&& b_new.spec_cached_x() is Some
    &&& b_new.spec_cached_y() is Some
    &&& axis_rel_x(a, b_old.spec_x()@, b_old.spec_y()@, vx, vy, b_new.spec_cached_x()->Some_0)
    &&& axis_rel_y(a, b_old.spec_x()@, b_old.spec_y()@, vx, vy, b_new.spec_cached_y()->Some_0)
}

/// The machine can run the broad-phase distance test on one pair: every
/// intermediate value of the squared-distance comparison fits.
pub open spec fn pair_scan_ok(b1: Ball, b2: Ball) -> bool {
    let dx = q_sub(b2.spec_x()@, b1.spec_x()@);
    let dy = q_sub(b2.spec_y()@, b1.spec_y()@);
    let su = q_add(b1.spec_radius()@, b2.spec_radius()@);
    &&& q_fits(dx)
    &&& q_fits(dy)
    &&& q_fits(q_mul(dx, dx))
    &&& q_fits(q_mul(dy, dy))
    &&& q_fits(q_add(q_mul(dx, dx), q_mul(dy, dy)))
    &&& q_fits(su)
    &&& q_fits(q_mul(su, su))
}

/// The machine can run one full collision resolution on the pair
/// `(i, j)` of `s`: both balls' velocities are readable, the centers are
/// distinct and every projection step fits, and — exactly when the pair
/// is genuinely approaching — the elastic formula, the velocity
/// recombination and both trajectory re-derivations fit as well. Every
/// failure source of the resolution is exact-arithmetic, so this is a
/// function of the pre-call state alone.
pub open spec fn exert_ok(s: Space, i: int, j: int) -> bool {
    let b1 = s.spec_balls()[i];
    let b2 = s.spec_balls()[j];
    let e = s.spec_elapsed()@;
    let dx = q_sub(b2.spec_x()@, b1.spec_x()@);
    let dy = q_sub(b2.spec_y()@, b1.spec_y()@);
    let l2 = q_add(q_mul(dx, dx), q_mul(dy, dy));
    let v1x = ball_vx_at(b1, e)->Some_0;
    let v1y = ball_vy_at(b1, e)->Some_0;
    let v2x = ball_vx_at(b2, e)->Some_0;
    let v2y = ball_vy_at(b2, e)->Some_0;
    let p1 = q_add(q_mul(v1x, dx), q_mul(v1y, dy));
    let p2 = q_add(q_mul(v2x, dx), q_mul(v2y, dy));
    let m1 = b1.spec_mass()@;
    let m2 = b2.spec_mass()@;
    let p1n = q_mul(collide_a(m1, m2, p1, p2), b1.spec_free_bounce()@);
    let p2n = q_mul(collide_b(m1, m2, p1, p2), b2.spec_free_bounce()@);
    &&& ball_vx_at(b1, e) is Some
    &&& ball_vy_at(b1, e) is Some
    &&& ball_vx_at(b2, e) is Some
    &&& ball_vy_at(b2, e) is Some
    &&& q_fits(dx)
    &&& q_fits(dy)
    &&& q_fits(q_mul(dx, dx))
    &&& q_fits(q_mul(dy, dy))
    &&& q_fits(l2)
    &&& l2.n != 0
    &&& q_fits(q_mul(v1x, dx))
    &&& q_fits(q_mul(v1y, dy))
    &&& q_fits(p1)
    &&& q_fits(q_mul(v2x, dx))
    &&& q_fits(q_mul(v2y, dy))
    &&& q_fits(p2)
    &&& (approaching(p1, p2) ==> {
        let w = collision_outcome_v(b1, b2, e);
        &&& collide_ok(m1, m2, p1, p2)
        &&& q_fits(p1n)
        &&& q_fits(p2n)
        &&& q_fits(q_sub(p1n, p1))
        &&& q_fits(q_sub(p2n, p2))
        &&& q_fits(q_mul(q_sub(p1n, p1), dx))
        &&& q_fits(q_div(q_mul(q_sub(p1n, p1), dx), l2))
        &&& q_fits(w.0)
        &&& q_fits(q_mul(q_sub(p1n, p1), dy))
        &&& q_fits(q_div(q_mul(q_sub(p1n, p1), dy), l2))
        &&& q_fits(w.1)
        &&& q_fits(q_mul(q_sub(p2n, p2), dx))
        &&& q_fits(q_div(q_mul(q_sub(p2n, p2), dx), l2))
        &&& q_fits(w.2)
        &&& q_fits(q_mul(q_sub(p2n, p2), dy))
        &&& q_fits(q_div(q_mul(q_sub(p2n, p2), dy), l2))
        &&& q_fits(w.3)
        &&& derive_ok(s.spec_a(), b1.spec_x()@, b1.spec_y()@, w.0, w.1)
        &&& derive_ok(s.spec_a(), b2.spec_x()@, b2.spec_y()@, w.2, w.3)
    })
}

/// A space: the bounding box and floor, the acceleration model, the
/// simulated clock, and the balls it owns.
pub struct Space {
    time_units: Units,
    space_units: Units,
    mass_units: Units,
    pub x1: Rat,
    pub y1: Rat,
    pub x2: Rat,
    pub y2: Rat,
    pub floor: Rat,
    a: AccelxyFunction,
    elapsed: Rat,
    pub balls: Vec<Ball>,
}

impl Space {
    /// Model accessors for the private fields, usable in public contracts.
    pub closed spec fn spec_a(self) -> AccelxyFunction {
        self.a
    }

    pub closed spec fn spec_elapsed(self) -> Rat {
        self.elapsed
    }

    pub closed spec fn spec_x1(self) -> Rat {
        self.x1
    }

    pub closed spec fn spec_x2(self) -> Rat {
        self.x2
    }

    pub closed spec fn spec_y1(self) -> Rat {
        self.y1
    }

    pub closed spec fn spec_y2(self) -> Rat {
        self.y2
    }

    pub closed spec fn spec_floor(self) -> Rat {
        self.floor
    }

    pub closed spec fn spec_balls(self) -> Seq<Ball> {
        self.balls@
    }
}

/// A space whose acceleration model is usable and whose balls all keep
/// their trajectory caches consistent.
pub open spec fn space_wf(s: Space) -> bool {
    &&& accel_model_ok(s.spec_a())
    &&& forall|k: int| 0 <= k < s.spec_balls().len() ==> ball_wf(#[trigger] s.spec_balls()[k])
}

impl Space {
    /// A blank space: the default bounding box spans -10 to 10 on both
    /// axes with the floor at zero, the clock starts at zero, and there
    /// are no balls yet.
    pub fn blank(a: AccelxyFunction) -> (r: Space)
        requires
            accel_model_ok(a),
        ensures
            space_wf(r),
            r.spec_a() == a,
            r.spec_elapsed()@ == q_int(0),
            r.spec_x1()@ == q_int(-10),
            r.spec_x2()@ == q_int(10),
            r.spec_y1()@ == q_int(-10),
            r.spec_y2()@ == q_int(10),
            r.spec_floor()@ == q_int(0),
            r.spec_balls().len() == 0,
    {
        Space {
            x1: Rat::from_int(-10),
            x2: Rat::from_int(10),
            y1: Rat::from_int(-10),
            y2: Rat::from_int(10),
            floor: Rat::zero(),
            time_units: Unit::S.units(),
            space_units: Unit::M.units(),
            mass_units: Unit::KG.units(),
            a,
            elapsed: Rat::zero(),
            balls: Vec::new(),
        }
    }

    /// Appends a ball with the given starting position, velocity, shape,
    /// mass, restitution coefficients and color; its trajectory is
    /// derived from the space's acceleration model at time zero.
    pub fn new_ball_unchecked(
        &mut self,
        x: Rat,
        y: Rat,
        vxi: Rat,
        vyi: Rat,
        r: Rat,
        m: Rat,
        b_g: Rat,
        b_f: Rat,
        color: [Rat; 4],
    ) -> (res: Result<(), FunctionError>)
        requires
            space_wf(*old(self)),
        ensures
            space_wf(*final(self)),
            final(self).spec_a() == old(self).spec_a(),
            final(self).spec_elapsed() == old(self).spec_elapsed(),
            final(self).spec_x1() == old(self).spec_x1(),
            final(self).spec_x2() == old(self).spec_x2(),
            final(self).spec_y1() == old(self).spec_y1(),
            final(self).spec_y2() == old(self).spec_y2(),
            final(self).spec_floor() == old(self).spec_floor(),
            res is Ok ==> {
                &&& final(self).spec_balls().len() == old(self).spec_balls().len() + 1
                &&& final(self).spec_balls().subrange(0, old(self).spec_balls().len() as int)
                    == old(self).spec_balls()
                &&& {
                    let b = final(self).spec_balls().last();
                    &&& b.spec_x() == x
                    &&& b.spec_y() == y
                    &&& b.spec_radius() == r
                    &&& b.spec_mass() == m
                    &&& b.spec_ground_bounce() == b_g
                    &&& b.spec_free_bounce() == b_f
                    &&& b.spec_color() == color
                    &&& b.spec_x_reftime()@ == q_int(0)
                    &&& b.spec_y_reftime()@ == q_int(0)
                    &&& b.spec_cached_x() is Some
                    &&& b.spec_cached_y() is Some
                    &&& axis_rel_x(old(self).spec_a(), x@, y@, vxi@, vyi@, b.spec_cached_x()->Some_0)
                    &&& axis_rel_y(old(self).spec_a(), x@, y@, vxi@, vyi@, b.spec_cached_y()->Some_0)
                }
            },
            res is Err ==> *final(self) == *old(self),
            (res is Ok) <==> derive_ok(old(self).spec_a(), x@, y@, vxi@, vyi@),
    {
        let mut ball = Ball {
            x,
            y,
            radius: r,
            mass: m,
            ground_bounce: b_g,
            free_bounce: b_f,
            fx: FunctionCache::default(),
            fy: FunctionCache::default(),
            cached_x_dyn_function: None,
            cached_y_dyn_function: None,
            x_reftime: Rat::zero(),
            y_reftime: Rat::zero(),
            color,
        };
        match ball.hard_update_unchecked(
            &self.a,
            x,
            y,
            vxi,
            vyi,
            Recalculate::xy(Rat::zero(), Rat::zero()),
        ) {
            Ok(()) => {},
            Err(e) => {
                return Err(e);
            },
        }
        self.balls.push(ball);
        proof {
            assert(final(self).spec_balls().subrange(0, old(self).spec_balls().len() as int) =~= old(self).balls@);
            assert forall|k: int|
                0 <= k < self.balls@.len() implies ball_wf(#[trigger] self.balls@[k]) by {
                if k < self.balls@.len() - 1 {
                    assert(self.balls@[k] == old(self).spec_balls()[k]);
                }
            }
        }
        Ok(())
    }

    /// The exit velocities of two bodies colliding elastically in one
    /// dimension, from their masses and entry velocities; nothing when the
    /// masses cancel or an intermediate value leaves machine range.
    pub fn collision_vs(m1: Rat, m2: Rat, v1: Rat, v2: Rat) -> (r: Option<(Rat, Rat)>)
        ensures
            r is Some <==> collide_ok(m1@, m2@, v1@, v2@),
            r matches Some(w) ==> w.0@ == collide_a(m1@, m2@, v1@, v2@) && w.1@ == collide_b(
                m1@,
                m2@,
                v1@,
                v2@,
            ),
    {
        let msum = match m1.add(m2) {
            Some(v) => v,
            None => {
                return None;
            },
        };
        if msum.numerator() == 0 {
            return None;
        }
        let t1 = match Rat::from_int(2).mul(m2) {
            Some(v) => v,
            None => {
                return None;
            },
        };
        let t2 = match t1.mul(v2) {
            Some(v) => v,
            None => {
                return None;
            },
        };
        let a1 = match t2.div(msum) {
            Some(v) => v,
            None => {
                return None;
            },
        };
        let mdiff = match m1.sub(m2) {
            Some(v) => v,
            None => {
                return None;
            },
        };
        let q = match mdiff.div(msum) {
            Some(v) => v,
            None => {
                return None;
            },
        };
        let a2 = match q.mul(v1) {
            Some(v) => v,
            None => {
                return None;
            },
        };
        let w1 = match a1.add(a2) {
            Some(v) => v,
            None => {
                return None;
            },
        };
        let s1 = match Rat::from_int(2).mul(m1) {
            Some(v) => v,
            None => {
                return None;
            },
        };
        let s2 = match s1.mul(v1) {
            Some(v) => v,
            None => {
                return None;
            },
        };
        let b1 = match s2.div(msum) {
            Some(v) => v,
            None => {
                return None;
            },
        };
        let b2 = match q.mul(v2) {
            Some(v) => v,
            None => {
                return None;
            },
        };
        let w2 = match b1.sub(b2) {
            Some(v) => v,
            None => {
                return None;
            },
        };
        Some((w1, w2))
    }

    /// The exact one-dimensional elastic resolution of the parallel
    /// velocity components, free-bounce coefficients applied, or `None`
    /// when the pair is not genuinely approaching; no state is touched.
    pub fn resolve_parallel(m1: Rat, m2: Rat, p1: Rat, p2: Rat, fb1: Rat, fb2: Rat) -> (r: Result<
        Option<(Rat, Rat)>,
        EvalFunctionError,
    >)
        ensures
            r == Ok::<Option<(Rat, Rat)>, EvalFunctionError>(None::<(Rat, Rat)>) <==> !approaching(
                p1@,
                p2@,
            ),
            r matches Ok(Some(pp)) ==> {
                &&& approaching(p1@, p2@)
                &&& pp.0@ == q_mul(collide_a(m1@, m2@, p1@, p2@), fb1@)
                &&& pp.1@ == q_mul(collide_b(m1@, m2@, p1@, p2@), fb2@)
            },
            r matches Ok(Some(pp)) <==> approaching(p1@, p2@) && collide_ok(m1@, m2@, p1@, p2@)
                && q_fits(q_mul(collide_a(m1@, m2@, p1@, p2@), fb1@)) && q_fits(
                q_mul(collide_b(m1@, m2@, p1@, p2@), fb2@),
            ),
            r matches Err(e) ==> e == EvalFunctionError::Overflow && approaching(p1@, p2@),
    {
        let approach = p2.lt(p1);
        if !approach {
            return Ok(None);
        }
        let (w1, w2) = match Self::collision_vs(m1, m2, p1, p2) {
            Some(w) => w,
            None => {
                return Err(EvalFunctionError::Overflow);
            },
        };
        let w1b = match w1.mul(fb1) {
            Some(v) => v,
            None => {
                return Err(EvalFunctionError::Overflow);
            },
        };
        let w2b = match w2.mul(fb2) {
            Some(v) => v,
            None => {
                return Err(EvalFunctionError::Overflow);
            },
        };
        Ok(Some((w1b, w2b)))
    }

    /// Sets the bounding box and floor directly, as scenario setup does
    /// before simulation starts.
    pub fn set_bounds(&mut self, x1: Rat, x2: Rat, y1: Rat, y2: Rat, floor: Rat)
        ensures
            final(self).spec_x1() == x1,
            final(self).spec_x2() == x2,
            final(self).spec_y1() == y1,
            final(self).spec_y2() == y2,
            final(self).spec_floor() == floor,
            final(self).spec_a() == old(self).spec_a(),
            final(self).spec_elapsed() == old(self).spec_elapsed(),
            final(self).spec_balls() == old(self).spec_balls(),
            space_wf(*old(self)) ==> space_wf(*final(self)),
    {
        self.x1 = x1;
        self.x2 = x2;
        self.y1 = y1;
        self.y2 = y2;
        self.floor = floor;
        proof {
            if space_wf(*old(self)) {
                assert forall|k: int|
                    0 <= k < self.spec_balls().len() implies ball_wf(
                    #[trigger] self.spec_balls()[k],
                ) by {
                    assert(ball_wf(old(self).spec_balls()[k]));
                }
            }
        }
    }

    pub fn get_elapsed(&self) -> (r: Rat)
        ensures
            r == self.spec_elapsed(),
    {
        self.elapsed
    }
}

/// The X velocity of a ball at absolute time `t`: the derivative of its
/// cached X trajectory evaluated at `t` minus the axis anchor; nothing
/// when the trajectory is missing or not a uniform function of time, or
/// when some machine step of the computation does not fit.
pub open spec fn ball_vx_at(b: Ball, t: Frac) -> Option<Frac> {
    match b.spec_cached_x() {
        Some(f) => if fn_var(f) == Var::T && fn_same_var(f, Var::T) && fn_diff_ok(f) && q_fits(
            q_sub(t, b.spec_x_reftime()@),
        ) {
            diff_csteps(f, q_sub(t, b.spec_x_reftime()@))
        } else {
            None
        },
        None => None,
    }
}

/// As `ball_vx_at`, for the Y axis.
pub open spec fn ball_vy_at(b: Ball, t: Frac) -> Option<Frac> {
    match b.spec_cached_y() {
        Some(f) => if fn_var(f) == Var::T && fn_same_var(f, Var::T) && fn_diff_ok(f) && q_fits(
            q_sub(t, b.spec_y_reftime()@),
        ) {
            diff_csteps(f, q_sub(t, b.spec_y_reftime()@))
        } else {
            None
        },
        None => None,
    }
}

/// The value the X-axis evaluator of a ball gives at simulated time
/// `elapsed`: the compiled trajectory read at `elapsed` minus the axis
/// anchor, or nothing when evaluation leaves machine range.
pub open spec fn ball_eval_x(b: Ball, elapsed: Frac) -> Option<Frac> {
    if q_fits(q_sub(elapsed, b.spec_x_reftime()@)) {
        ceval_steps(b.spec_fx().closure, q_sub(elapsed, b.spec_x_reftime()@))
    } else {
        None
    }
}

/// As `ball_eval_x`, for the Y axis.
pub open spec fn ball_eval_y(b: Ball, elapsed: Frac) -> Option<Frac> {
    if q_fits(q_sub(elapsed, b.spec_y_reftime()@)) {
        ceval_steps(b.spec_fy().closure, q_sub(elapsed, b.spec_y_reftime()@))
    } else {
        None
    }
}

/// One ball stepped by one tick, from `b0` to `b`, at new simulated time
/// `e`: the position is read from the compiled evaluators, then each
/// boundary is checked against the new position — a wall or floor hit
/// with inward velocity re-anchors that axis alone at `e` with the
/// velocity scaled by minus the ground-bounce coefficient and the
/// position unchanged, anything else leaves the axis's cached function
/// and anchor untouched. The left wall is handled first; a ball wide
/// enough to hit both walls at once has the right-wall test applied to
/// whatever the left-wall bounce produced. The floor test runs last, and
/// its re-derivation carries the ball's X velocity as it stands after the
/// wall tests — the X velocity of `b` itself, since the floor bounce
/// leaves the X axis untouched. There is no upper-Y boundary: a ball
/// above the top keeps its trajectory.
pub open spec fn stepped(
    b0: Ball,
    b: Ball,
    e: Rat,
    x1: Rat,
    x2: Rat,
    floor: Rat,
    a: AccelxyFunction,
) -> bool {
    let xn = ball_eval_x(b0, e@)->Some_0;
    let yn = ball_eval_y(b0, e@)->Some_0;
    let rad = b0.spec_radius()@;
    let lw = q_lt(q_sub(xn, rad), x1@);
    let rw = q_lt(x2@, q_add(xn, rad));
    let fl = q_lt(q_sub(yn, rad), floor@);
    let vx = ball_vx_at(b0, e@);
    let vy = ball_vy_at(b0, e@);
    let gb = b0.spec_ground_bounce()@;
    &&& ball_eval_x(b0, e@) is Some
    &&& ball_eval_y(b0, e@) is Some
    &&& b.spec_x()@ == xn
    &&& b.spec_y()@ == yn
    &&& b.spec_radius() == b0.spec_radius()
    &&& b.spec_mass() == b0.spec_mass()
    &&& b.spec_ground_bounce() == b0.spec_ground_bounce()
    &&& b.spec_free_bounce() == b0.spec_free_bounce()
    &&& b.spec_color() == b0.spec_color()
    &&& (!lw && !rw ==> b.spec_cached_x() == b0.spec_cached_x() && b.spec_x_reftime()
        == b0.spec_x_reftime())
    &&& (!fl ==> b.spec_cached_y() == b0.spec_cached_y() && b.spec_y_reftime()
        == b0.spec_y_reftime())
    &&& (lw && !rw ==> vx is Some && (vx->Some_0.n < 0 ==> vy is Some && b.spec_x_reftime() == e
        && b.spec_cached_x() is Some && axis_rel_x(a, xn, yn, q_mul(q_neg(vx->Some_0), gb),
        vy->Some_0, b.spec_cached_x()->Some_0)) && (vx->Some_0.n >= 0 ==> b.spec_cached_x()
        == b0.spec_cached_x() && b.spec_x_reftime() == b0.spec_x_reftime()))
    &&& (!lw && rw ==> vx is Some && (vx->Some_0.n > 0 ==> vy is Some && b.spec_x_reftime() == e
        && b.spec_cached_x() is Some && axis_rel_x(a, xn, yn, q_mul(q_neg(vx->Some_0), gb),
        vy->Some_0, b.spec_cached_x()->Some_0)) && (vx->Some_0.n <= 0 ==> b.spec_cached_x()
        == b0.spec_cached_x() && b.spec_x_reftime() == b0.spec_x_reftime()))
    &&& (lw && rw ==> vx is Some && {
        let vx0 = vx->Some_0;
        &&& (vx0.n == 0 ==> b.spec_cached_x() == b0.spec_cached_x() && b.spec_x_reftime()
            == b0.spec_x_reftime())
        &&& (vx0.n > 0 ==> vy is Some && b.spec_x_reftime() == e && b.spec_cached_x() is Some
            && axis_rel_x(a, xn, yn, q_mul(q_neg(vx0), gb), vy->Some_0,
            b.spec_cached_x()->Some_0))
        &&& (vx0.n < 0 ==> vy is Some && b.spec_x_reftime() == e && b.spec_cached_x() is Some
            && (exists|g1: Function|
            {
                &&& #[trigger] axis_rel_x(a, xn, yn, q_mul(q_neg(vx0), gb), vy->Some_0, g1)
                &&& fn_var(g1) == Var::T
                &&& fn_same_var(g1, Var::T)
                &&& fn_diff_ok(g1)
                &&& q_fits(q_sub(e@, e@))
                &&& diff_csteps(g1, q_sub(e@, e@)) is Some
                &&& {
                    let vx1 = diff_csteps(g1, q_sub(e@, e@))->Some_0;
                    if vx1.n > 0 {
                        axis_rel_x(a, xn, yn, q_mul(q_neg(vx1), gb), vy->Some_0,
                            b.spec_cached_x()->Some_0)
                    } else {
                        b.spec_cached_x() == Some(g1)
                    }
                }
            }))
    })
    &&& (fl ==> vy is Some && (vy->Some_0.n < 0 ==> b.spec_y_reftime() == e && b.spec_cached_y()
        is Some && ball_vx_at(b, e@) is Some && axis_rel_y(a, xn, yn, ball_vx_at(b, e@)->Some_0,
        q_mul(q_neg(vy->Some_0), gb), b.spec_cached_y()->Some_0)) && (vy->Some_0.n >= 0
        ==> b.spec_cached_y() == b0.spec_cached_y() && b.spec_y_reftime()
        == b0.spec_y_reftime()))
}

/// A quiet step: the position evaluators succeed at `e`, every boundary
/// test fits the machine, and no boundary fires — the ball glides, its
/// cached trajectories untouched.
pub open spec fn step_clear(b: Ball, e: Frac, x1: Rat, x2: Rat, floor: Rat) -> bool {
    let xn = ball_eval_x(b, e)->Some_0;
    let yn = ball_eval_y(b, e)->Some_0;
    let rad = b.spec_radius()@;
    &&& ball_eval_x(b, e) is Some
    &&& ball_eval_y(b, e) is Some
    &&& q_fits(q_sub(xn, rad))
    &&& q_fits(q_add(xn, rad))
    &&& q_fits(q_sub(yn, rad))
    &&& !q_lt(q_sub(xn, rad), x1@)
    &&& !q_lt(x2@, q_add(xn, rad))
    &&& !q_lt(q_sub(yn, rad), floor@)
}

impl Ball {
    /// Installs freshly derived trajectories for both axes, anchored at
    /// `t`, and refreshes the compiled evaluators; everything else is
    /// untouched.
    fn install_trajectories(&mut self, gx: Function, gy: Function, t: Rat)
        requires
            traj_ok(gx),
            traj_ok(gy),
        ensures
            ball_wf(*final(self)),
            final(self).spec_cached_x() == Some(gx),
            final(self).spec_cached_y() == Some(gy),
            final(self).spec_x_reftime() == t,
            final(self).spec_y_reftime() == t,
            final(self).spec_x() == old(self).spec_x(),
            final(self).spec_y() == old(self).spec_y(),
            final(self).spec_radius() == old(self).spec_radius(),
            final(self).spec_mass() == old(self).spec_mass(),
            final(self).spec_ground_bounce() == old(self).spec_ground_bounce(),
            final(self).spec_free_bounce() == old(self).spec_free_bounce(),
            final(self).spec_color() == old(self).spec_color(),
    {
        self.cached_x_dyn_function = Some(gx);
        self.cached_y_dyn_function = Some(gy);
        self.x_reftime = t;
        self.y_reftime = t;
        self.soft_update_unchecked();
    }

    /// One tick's worth of work on a single ball: read the new position
    /// from the compiled evaluators, then check each boundary
    /// independently and re-anchor only the axis that bounced, leaving
    /// the other axis's cached function and anchor untouched, and refresh
    /// the evaluators.
    fn step_one(
        &mut self,
        elapsed: Rat,
        x1: Rat,
        x2: Rat,
        floor: Rat,
        a: &AccelxyFunction,
    ) -> (r: Result<(), FunctionError>)
        requires
            ball_wf(*old(self)),
            accel_model_ok(*a),
        ensures
            ball_wf(*final(self)),
            final(self).spec_radius() == old(self).spec_radius(),
            final(self).spec_mass() == old(self).spec_mass(),
            final(self).spec_ground_bounce() == old(self).spec_ground_bounce(),
            final(self).spec_free_bounce() == old(self).spec_free_bounce(),
            final(self).spec_color() == old(self).spec_color(),
            r is Ok ==> stepped(*old(self), *final(self), elapsed, x1, x2, floor, *a),
            step_clear(*old(self), elapsed@, x1, x2, floor) ==> r is Ok,
    {
        let dtx = match elapsed.sub(self.x_reftime) {
            Some(d) => d,
            None => {
                return Err(FunctionError::EvalFunctionError(EvalFunctionError::Overflow));
            },
        };
        let xv = match self.fx.closure.eval(dtx) {
            Ok(v) => v,
            Err(e) => {
                return Err(FunctionError::EvalFunctionError(e));
            },
        };
        let dty = match elapsed.sub(self.y_reftime) {
            Some(d) => d,
            None => {
                return Err(FunctionError::EvalFunctionError(EvalFunctionError::Overflow));
            },
        };
        let yv = match self.fy.closure.eval(dty) {
            Ok(v) => v,
            Err(e) => {
                return Err(FunctionError::EvalFunctionError(e));
            },
        };
        self.x = xv;
        self.y = yv;
        proof {
            assert(ball_eval_x(*old(self), elapsed@) == Some(xv@));
            assert(ball_eval_y(*old(self), elapsed@) == Some(yv@));
        }
        let lw = match self.x.sub(self.radius) {
            Some(d) => d.lt(x1),
            None => {
                return Err(FunctionError::EvalFunctionError(EvalFunctionError::Overflow));
            },
        };
        if lw {
            proof {
                assert(ball_vx_at(*self, elapsed@) == ball_vx_at(*old(self), elapsed@));
                assert(ball_vy_at(*self, elapsed@) == ball_vy_at(*old(self), elapsed@));
            }
            let vx = match self.get_vx(elapsed) {
                Ok(v) => v,
                Err(e) => {
                    return Err(e);
                },
            };
            if vx.is_neg() {
                let vy = match self.get_vy(elapsed) {
                    Ok(v) => v,
                    Err(e) => {
                        return Err(e);
                    },
                };
                let nvx = match vx.neg().mul(self.ground_bounce) {
                    Some(v) => v,
                    None => {
                        return Err(FunctionError::EvalFunctionError(EvalFunctionError::Overflow));
                    },
                };
                let xx = self.x;
                let yy = self.y;
                match self.hard_update_unchecked(a, xx, yy, nvx, vy, Recalculate::x(elapsed)) {
                    Ok(()) => {},
                    Err(e) => {
                        return Err(e);
                    },
                }
                proof {
                    assert(axis_rel_x(*a, xv@, yv@, q_mul(q_neg(ball_vx_at(*old(self),
                        elapsed@)->Some_0), old(self).spec_ground_bounce()@), ball_vy_at(
                        *old(self), elapsed@)->Some_0, self.spec_cached_x()->Some_0));
                }
            }
        }
        let ghost bmid = *self;
        let rw = match self.x.add(self.radius) {
            Some(su) => x2.lt(su),
            None => {
                return Err(FunctionError::EvalFunctionError(EvalFunctionError::Overflow));
            },
        };
        if rw {
            proof {
                assert(ball_vy_at(*self, elapsed@) == ball_vy_at(*old(self), elapsed@));
                if !lw || ball_vx_at(*old(self), elapsed@)->Some_0.n >= 0 {
                    assert(ball_vx_at(*self, elapsed@) == ball_vx_at(*old(self), elapsed@));
                }
            }
            let vx = match self.get_vx(elapsed) {
                Ok(v) => v,
                Err(e) => {
                    return Err(e);
                },
            };
            let ghost vmid = vx@;
            proof {
                assert(ball_vx_at(bmid, elapsed@) == Some(vmid));
            }
            if vx.is_pos() {
                let vy = match self.get_vy(elapsed) {
                    Ok(v) => v,
                    Err(e) => {
                        return Err(e);
                    },
                };
                let nvx = match vx.neg().mul(self.ground_bounce) {
                    Some(v) => v,
                    None => {
                        return Err(FunctionError::EvalFunctionError(EvalFunctionError::Overflow));
                    },
                };
                let xx = self.x;
                let yy = self.y;
                match self.hard_update_unchecked(a, xx, yy, nvx, vy, Recalculate::x(elapsed)) {
                    Ok(()) => {},
                    Err(e) => {
                        return Err(e);
                    },
                }
                proof {
                    assert(axis_rel_x(*a, xv@, yv@, q_mul(q_neg(vmid),
                        old(self).spec_ground_bounce()@), ball_vy_at(*old(self),
                        elapsed@)->Some_0, self.spec_cached_x()->Some_0));
                }
            }
            proof {
                if lw && ball_vx_at(*old(self), elapsed@)->Some_0.n < 0 {
                    let g1 = bmid.spec_cached_x()->Some_0;
                    assert(bmid.spec_x_reftime() == elapsed);
                    assert(diff_csteps(g1, q_sub(elapsed@, elapsed@)) == Some(vmid));
                    assert(fn_var(g1) == Var::T && fn_same_var(g1, Var::T) && fn_diff_ok(g1));
                    assert(q_fits(q_sub(elapsed@, elapsed@)));
                    if vmid.n <= 0 {
                        assert(self.spec_cached_x() == Some(g1));
                    }
                }
            }
        }
        let fl = match self.y.sub(self.radius) {
            Some(d) => d.lt(floor),
            None => {
                return Err(FunctionError::EvalFunctionError(EvalFunctionError::Overflow));
            },
        };
        if fl {
            proof {
                assert(ball_vy_at(*self, elapsed@) == ball_vy_at(*old(self), elapsed@));
            }
            let vy = match self.get_vy(elapsed) {
                Ok(v) => v,
                Err(e) => {
                    return Err(e);
                },
            };
            if vy.is_neg() {
                let vx = match self.get_vx(elapsed) {
                    Ok(v) => v,
                    Err(e) => {
                        return Err(e);
                    },
                };
                let nvy = match vy.neg().mul(self.ground_bounce) {
                    Some(v) => v,
                    None => {
                        return Err(FunctionError::EvalFunctionError(EvalFunctionError::Overflow));
                    },
                };
                let xx = self.x;
                let yy = self.y;
                match self.hard_update_unchecked(a, xx, yy, vx, nvy, Recalculate::y(elapsed)) {
                    Ok(()) => {},
                    Err(e) => {
                        return Err(e);
                    },
                }
                proof {
                    assert(axis_rel_y(*a, xv@, yv@, vx@, q_mul(q_neg(ball_vy_at(*old(self),
                        elapsed@)->Some_0), old(self).spec_ground_bounce()@),
                        self.spec_cached_y()->Some_0));
                    assert(ball_vx_at(*self, elapsed@) == Some(vx@));
                }
            }
        }
        self.soft_update_unchecked();
        proof {
            let xn = ball_eval_x(*old(self), elapsed@)->Some_0;
            let yn = ball_eval_y(*old(self), elapsed@)->Some_0;
            let vxo = ball_vx_at(*old(self), elapsed@);
            let gb = old(self).spec_ground_bounce()@;
            let vyo = ball_vy_at(*old(self), elapsed@);
            assert(xn == xv@ && yn == yv@);
            if lw && rw && vxo is Some && vxo->Some_0.n < 0 {
                let g1 = bmid.spec_cached_x()->Some_0;
                assert({
                    &&& axis_rel_x(*a, xn, yn, q_mul(q_neg(vxo->Some_0), gb), vyo->Some_0, g1)
                    &&& fn_var(g1) == Var::T
                    &&& fn_same_var(g1, Var::T)
                    &&& fn_diff_ok(g1)
                    &&& q_fits(q_sub(elapsed@, elapsed@))
                    &&& diff_csteps(g1, q_sub(elapsed@, elapsed@)) is Some
                    &&& {
                        let vx1 = diff_csteps(g1, q_sub(elapsed@, elapsed@))->Some_0;
                        if vx1.n > 0 {
                            axis_rel_x(*a, xn, yn, q_mul(q_neg(vx1), gb), vyo->Some_0,
                                self.spec_cached_x()->Some_0)
                        } else {
                            self.spec_cached_x() == Some(g1)
                        }
                    }
                });
                assert(exists|g: Function|
                    {
                        &&& #[trigger] axis_rel_x(*a, xn, yn, q_mul(q_neg(vxo->Some_0), gb),
                            vyo->Some_0, g)
                        &&& fn_var(g) == Var::T
                        &&& fn_same_var(g, Var::T)
                        &&& fn_diff_ok(g)
                        &&& q_fits(q_sub(elapsed@, elapsed@))
                        &&& diff_csteps(g, q_sub(elapsed@, elapsed@)) is Some
                        &&& {
                            let vx1 = diff_csteps(g, q_sub(elapsed@, elapsed@))->Some_0;
                            if vx1.n > 0 {
                                axis_rel_x(*a, xn, yn, q_mul(q_neg(vx1), gb), vyo->Some_0,
                                    self.spec_cached_x()->Some_0)
                            } else {
                                self.spec_cached_x() == Some(g)
                            }
                        }
                    });
            }
        }
        Ok(())
    }
}

/// Ball `k` of the sequence belongs to at least one broad-phase
/// candidate pair.
pub open spec fn in_touching_pair(balls: Seq<Ball>, k: int) -> bool {
    ||| exists|l: int| 0 <= l < k && #[trigger] pair_touches(balls[l], balls[k])
    ||| exists|l: int| k < l < balls.len() && #[trigger] pair_touches(balls[k], balls[l])
}

/// One pair of balls stands well apart right after a quiet step: centers
/// read from the evaluators at the new time, radii unchanged, every step
/// of the distance test fits, and the test comes out negative.
pub open spec fn quiet_pair_far(b1: Ball, b2: Ball, e: Frac) -> bool {
    let dx = q_sub(ball_eval_x(b2, e)->Some_0, ball_eval_x(b1, e)->Some_0);
    let dy = q_sub(ball_eval_y(b2, e)->Some_0, ball_eval_y(b1, e)->Some_0);
    let d2 = q_add(q_mul(dx, dx), q_mul(dy, dy));
    let su = q_add(b1.spec_radius()@, b2.spec_radius()@);
    &&& q_fits(dx)
    &&& q_fits(dy)
    &&& q_fits(q_mul(dx, dx))
    &&& q_fits(q_mul(dy, dy))
    &&& q_fits(d2)
    &&& q_fits(su)
    &&& q_fits(q_mul(su, su))
    &&& !(su.n >= 0 && q_le(d2, q_mul(su, su)))
}

/// A quiet tick: the clock advance fits, every ball steps clear of every
/// boundary, and every pair of balls lands well apart — no bounce and no
/// collision anywhere. On such a tick success is owed.
pub open spec fn tick_quiet_ok(s: Space, dt: Rat) -> bool {
    let e1 = q_add(s.spec_elapsed()@, dt@);
    &&& q_fits(e1)
    &&& (forall|k: int|
        0 <= k < s.spec_balls().len() ==> step_clear(
            #[trigger] s.spec_balls()[k],
            e1,
            s.spec_x1(),
            s.spec_x2(),
            s.spec_floor(),
        ))
    &&& (forall|i: int, j: int|
        0 <= i < j < s.spec_balls().len() ==> quiet_pair_far(
            #[trigger] s.spec_balls()[i],
            #[trigger] s.spec_balls()[j],
            e1,
        ))
}

impl Space {
    /// The broad-phase pairwise scan: every unordered pair of balls whose
    /// centers are no farther apart than the sum of their radii, each
    /// pair reported once, lower index first, in strictly ascending
    /// lexicographic order. Succeeds exactly when the distance test fits
    /// the machine for every pair.
    pub fn search_collision_pairs(&self) -> (r: Result<Vec<(usize, usize)>, EvalFunctionError>)
        ensures
            r is Ok <==> forall|i: int, j: int|
                0 <= i < j < self.spec_balls().len() ==> pair_scan_ok(
                    #[trigger] self.spec_balls()[i],
                    #[trigger] self.spec_balls()[j],
                ),
            r matches Ok(v) ==> {
                &&& forall|t: int|
                    0 <= t < v@.len() ==> (#[trigger] v@[t]).0 < v@[t].1 < self.spec_balls().len()
                        && pair_touches(
                        self.spec_balls()[v@[t].0 as int],
                        self.spec_balls()[v@[t].1 as int],
                    )
                &&& forall|i: int, j: int|
                    0 <= i < j < self.spec_balls().len() && pair_touches(
                        #[trigger] self.spec_balls()[i],
                        #[trigger] self.spec_balls()[j],
                    ) ==> v@.contains((i as usize, j as usize))
                &&& forall|t1: int, t2: int|
                    0 <= t1 < t2 < v@.len() ==> ((#[trigger] v@[t1]).0 < (#[trigger] v@[t2]).0 || (
                    v@[t1].0 == v@[t2].0 && v@[t1].1 < v@[t2].1))
            },
            r matches Err(e) ==> e == EvalFunctionError::Overflow,
    {
        let mut ret: Vec<(usize, usize)> = Vec::new();
        let n = self.balls.len();
        let mut i: usize = 0;
        while i < n
            invariant
                n == self.spec_balls().len(),
                i <= n,
                forall|t: int|
                    0 <= t < ret@.len() ==> (#[trigger] ret@[t]).0 < ret@[t].1 < n
                        && pair_touches(
                        self.spec_balls()[ret@[t].0 as int],
                        self.spec_balls()[ret@[t].1 as int],
                    ),
                forall|a: int, b: int|
                    0 <= a < b < n && a < i && pair_touches(
                        #[trigger] self.spec_balls()[a],
                        #[trigger] self.spec_balls()[b],
                    ) ==> ret@.contains((a as usize, b as usize)),
                forall|a: int, b: int|
                    0 <= a < b < n && a < i ==> pair_scan_ok(
                        #[trigger] self.spec_balls()[a],
                        #[trigger] self.spec_balls()[b],
                    ),
                forall|t: int| 0 <= t < ret@.len() ==> (#[trigger] ret@[t]).0 < i,
                forall|t1: int, t2: int|
                    0 <= t1 < t2 < ret@.len() ==> ((#[trigger] ret@[t1]).0 < (
                    #[trigger] ret@[t2]).0 || (ret@[t1].0 == ret@[t2].0 && ret@[t1].1
                        < ret@[t2].1)),
            decreases n - i,
        {
            let mut j: usize = i + 1;
            while j < n
                invariant
                    n == self.spec_balls().len(),
                    i < n,
                    i + 1 <= j <= n,
                    forall|t: int|
                        0 <= t < ret@.len() ==> (#[trigger] ret@[t]).0 < ret@[t].1 < n
                            && pair_touches(
                            self.spec_balls()[ret@[t].0 as int],
                            self.spec_balls()[ret@[t].1 as int],
                        ),
                    forall|a: int, b: int|
                        0 <= a < b < n && (a < i || (a == i && b < j)) && pair_touches(
                            #[trigger] self.spec_balls()[a],
                            #[trigger] self.spec_balls()[b],
                        ) ==> ret@.contains((a as usize, b as usize)),
                    forall|a: int, b: int|
                        0 <= a < b < n && (a < i || (a == i && b < j)) ==> pair_scan_ok(
                            #[trigger] self.spec_balls()[a],
                            #[trigger] self.spec_balls()[b],
                        ),
                    forall|t: int|
                        0 <= t < ret@.len() ==> ((#[trigger] ret@[t]).0 < i || (ret@[t].0 == i
                            && ret@[t].1 < j)),
                    forall|t1: int, t2: int|
                        0 <= t1 < t2 < ret@.len() ==> ((#[trigger] ret@[t1]).0 < (
                        #[trigger] ret@[t2]).0 || (ret@[t1].0 == ret@[t2].0 && ret@[t1].1
                            < ret@[t2].1)),
                decreases n - j,
            {
                let ghost pre = ret@;
                proof {
                    assert(self.spec_balls()[i as int] == self.balls@[i as int]);
                    assert(self.spec_balls()[j as int] == self.balls@[j as int]);
                }
                let dx = match self.balls[j].get_x().sub(self.balls[i].get_x()) {
                    Some(d) => d,
                    None => {
                        proof {
                            assert(!pair_scan_ok(self.spec_balls()[i as int],
                                self.spec_balls()[j as int]));
                        }
                        return Err(EvalFunctionError::Overflow);
                    },
                };
                let dy = match self.balls[j].get_y().sub(self.balls[i].get_y()) {
                    Some(d) => d,
                    None => {
                        return Err(EvalFunctionError::Overflow);
                    },
                };
                let dx2 = match dx.mul(dx) {
                    Some(d) => d,
                    None => {
                        return Err(EvalFunctionError::Overflow);
                    },
                };
                let dy2 = match dy.mul(dy) {
                    Some(d) => d,
                    None => {
                        return Err(EvalFunctionError::Overflow);
                    },
                };
                let d2 = match dx2.add(dy2) {
                    Some(d) => d,
                    None => {
                        return Err(EvalFunctionError::Overflow);
                    },
                };
                let su = match self.balls[i].get_radius().add(self.balls[j].get_radius()) {
                    Some(d) => d,
                    None => {
                        return Err(EvalFunctionError::Overflow);
                    },
                };
                let su2 = match su.mul(su) {
                    Some(d) => d,
                    None => {
                        return Err(EvalFunctionError::Overflow);
                    },
                };
                if !su.is_neg() && d2.le(su2) {
                    ret.push((i, j));
                }
                proof {
                    assert(pair_touches(self.spec_balls()[i as int], self.spec_balls()[j as int])
                        == (su@.n >= 0 && q_le(d2@, q_mul(su@, su@))));
                    assert forall|a: int, b: int|
                        0 <= a < b < n && (a < i || (a == i && b < j + 1)) && pair_touches(
                            #[trigger] self.spec_balls()[a],
                            #[trigger] self.spec_balls()[b],
                        ) implies ret@.contains((a as usize, b as usize)) by {
                        if a == i && b == j {
                            if pair_touches(self.spec_balls()[a], self.spec_balls()[b]) {
                                assert(ret@.last() == (i, j));
                                assert(ret@.contains((i, j)));
                            }
                        } else {
                            if pair_touches(self.spec_balls()[a], self.spec_balls()[b]) {
                                let t = choose|t: int|
                                    0 <= t < pre.len() && pre[t] == (a as usize, b as usize);
                                assert(ret@[t] == (a as usize, b as usize));
                                assert(ret@.contains((a as usize, b as usize)));
                            }
                        }
                    }
                }
                j += 1;
            }
            i += 1;
        }
        Ok(ret)
    }

    /// Resolves one candidate pair: reads both velocities, projects them
    /// onto the collision axis, and unless the balls are separating,
    /// applies the elastic formula with each ball's free-bounce
    /// coefficient and re-derives both balls' trajectories at the current
    /// time with their positions unchanged. A pair that is not genuinely
    /// approaching is left completely alone, and balls other than the pair
    /// are never touched; on an error nothing has changed.
    #[verifier::rlimit(100)]
    pub fn exert_collision(&mut self, i: usize, j: usize) -> (r: Result<(), FunctionError>)
        requires
            space_wf(*old(self)),
            i < old(self).spec_balls().len(),
            j < old(self).spec_balls().len(),
            i != j,
        ensures
            space_wf(*final(self)),
            final(self).spec_balls().len() == old(self).spec_balls().len(),
            final(self).spec_a() == old(self).spec_a(),
            final(self).spec_elapsed() == old(self).spec_elapsed(),
            final(self).spec_x1() == old(self).spec_x1(),
            final(self).spec_x2() == old(self).spec_x2(),
            final(self).spec_y1() == old(self).spec_y1(),
            final(self).spec_y2() == old(self).spec_y2(),
            final(self).spec_floor() == old(self).spec_floor(),
            forall|k: int|
                0 <= k < old(self).spec_balls().len() && k != i && k != j ==> final(self).spec_balls()[k] == old(self).spec_balls()[k],
            r is Err ==> final(self).spec_balls() == old(self).spec_balls(),
            (r is Ok) <==> exert_ok(*old(self), i as int, j as int),
            r is Ok ==> {
                &&& ball_vx_at(old(self).spec_balls()[i as int], old(self).spec_elapsed()@) is Some
                &&& ball_vy_at(old(self).spec_balls()[i as int], old(self).spec_elapsed()@) is Some
                &&& ball_vx_at(old(self).spec_balls()[j as int], old(self).spec_elapsed()@) is Some
                &&& ball_vy_at(old(self).spec_balls()[j as int], old(self).spec_elapsed()@) is Some
            },
            r is Ok && !pair_approaching(
                old(self).spec_balls()[i as int],
                old(self).spec_balls()[j as int],
                old(self).spec_elapsed()@,
            ) ==> final(self).spec_balls() == old(self).spec_balls(),
            r is Ok && pair_approaching(
                old(self).spec_balls()[i as int],
                old(self).spec_balls()[j as int],
                old(self).spec_elapsed()@,
            ) ==> {
                let b1 = old(self).spec_balls()[i as int];
                let b2 = old(self).spec_balls()[j as int];
                let w = collision_outcome_v(b1, b2, old(self).spec_elapsed()@);
                &&& collision_updated(b1, final(self).spec_balls()[i as int], old(self).spec_a(),
                    old(self).spec_elapsed(), w.0, w.1)
                &&& collision_updated(b2, final(self).spec_balls()[j as int], old(self).spec_a(),
                    old(self).spec_elapsed(), w.2, w.3)
            },
            r is Ok ==> {
                let fi = final(self).spec_balls()[i as int];
                let fj = final(self).spec_balls()[j as int];
                let b1 = old(self).spec_balls()[i as int];
                let b2 = old(self).spec_balls()[j as int];
                &&& fi.spec_x() == b1.spec_x() && fi.spec_y() == b1.spec_y() && fi.spec_radius()
                    == b1.spec_radius() && fi.spec_mass() == b1.spec_mass()
                    && fi.spec_ground_bounce() == b1.spec_ground_bounce() && fi.spec_free_bounce()
                    == b1.spec_free_bounce() && fi.spec_color() == b1.spec_color()
                &&& fj.spec_x() == b2.spec_x() && fj.spec_y() == b2.spec_y() && fj.spec_radius()
                    == b2.spec_radius() && fj.spec_mass() == b2.spec_mass()
                    && fj.spec_ground_bounce() == b2.spec_ground_bounce() && fj.spec_free_bounce()
                    == b2.spec_free_bounce() && fj.spec_color() == b2.spec_color()
            },
    {
        let elapsed = self.elapsed;
        let b1x = self.balls[i].get_x();
        let b1y = self.balls[i].get_y();
        let b2x = self.balls[j].get_x();
        let b2y = self.balls[j].get_y();
        let m1 = self.balls[i].get_mass();
        let m2 = self.balls[j].get_mass();
        let fb1 = self.balls[i].get_free_bounce();
        let fb2 = self.balls[j].get_free_bounce();
        let v1x = match self.balls[i].get_vx(elapsed) {
            Ok(v) => v,
            Err(e) => {
                return Err(e);
            },
        };
        let v1y = match self.balls[i].get_vy(elapsed) {
            Ok(v) => v,
            Err(e) => {
                return Err(e);
            },
        };
        let v2x = match self.balls[j].get_vx(elapsed) {
            Ok(v) => v,
            Err(e) => {
                return Err(e);
            },
        };
        let v2y = match self.balls[j].get_vy(elapsed) {
            Ok(v) => v,
            Err(e) => {
                return Err(e);
            },
        };
        let dx = match b2x.sub(b1x) {
            Some(v) => v,
            None => {
                return Err(FunctionError::EvalFunctionError(EvalFunctionError::Overflow));
            },
        };
        let dy = match b2y.sub(b1y) {
            Some(v) => v,
            None => {
                return Err(FunctionError::EvalFunctionError(EvalFunctionError::Overflow));
            },
        };
        let dx2 = match dx.mul(dx) {
            Some(v) => v,
            None => {
                return Err(FunctionError::EvalFunctionError(EvalFunctionError::Overflow));
            },
        };
        let dy2 = match dy.mul(dy) {
            Some(v) => v,
            None => {
                return Err(FunctionError::EvalFunctionError(EvalFunctionError::Overflow));
            },
        };
        let l2 = match dx2.add(dy2) {
            Some(v) => v,
            None => {
                return Err(FunctionError::EvalFunctionError(EvalFunctionError::Overflow));
            },
        };
        if l2.numerator() == 0 {
            return Err(FunctionError::EvalFunctionError(EvalFunctionError::OutsideDomain));
        }
        let p1a = match v1x.mul(dx) {
            Some(v) => v,
            None => {
                return Err(FunctionError::EvalFunctionError(EvalFunctionError::Overflow));
            },
        };
        let p1b = match v1y.mul(dy) {
            Some(v) => v,
            None => {
                return Err(FunctionError::EvalFunctionError(EvalFunctionError::Overflow));
            },
        };
        let p1 = match p1a.add(p1b) {
            Some(v) => v,
            None => {
                return Err(FunctionError::EvalFunctionError(EvalFunctionError::Overflow));
            },
        };
        let p2a = match v2x.mul(dx) {
            Some(v) => v,
            None => {
                return Err(FunctionError::EvalFunctionError(EvalFunctionError::Overflow));
            },
        };
        let p2b = match v2y.mul(dy) {
            Some(v) => v,
            None => {
                return Err(FunctionError::EvalFunctionError(EvalFunctionError::Overflow));
            },
        };
        let p2 = match p2a.add(p2b) {
            Some(v) => v,
            None => {
                return Err(FunctionError::EvalFunctionError(EvalFunctionError::Overflow));
            },
        };
        let outcome = match Self::resolve_parallel(m1, m2, p1, p2, fb1, fb2) {
            Ok(o) => o,
            Err(e) => {
                return Err(FunctionError::EvalFunctionError(e));
            },
        };
        let (p1n, p2n) = match outcome {
            None => {
                return Ok(());
            },
            Some(pp) => pp,
        };
        let d1 = match p1n.sub(p1) {
            Some(v) => v,
            None => {
                return Err(FunctionError::EvalFunctionError(EvalFunctionError::Overflow));
            },
        };
        let d2n = match p2n.sub(p2) {
            Some(v) => v,
            None => {
                return Err(FunctionError::EvalFunctionError(EvalFunctionError::Overflow));
            },
        };
        let v1xn = match d1.mul(dx) {
            Some(t) => match t.div(l2) {
                Some(t2) => match v1x.add(t2) {
                    Some(v) => v,
                    None => {
                        return Err(FunctionError::EvalFunctionError(EvalFunctionError::Overflow));
                    },
                },
                None => {
                    return Err(FunctionError::EvalFunctionError(EvalFunctionError::Overflow));
                },
            },
            None => {
                return Err(FunctionError::EvalFunctionError(EvalFunctionError::Overflow));
            },
        };
        let v1yn = match d1.mul(dy) {
            Some(t) => match t.div(l2) {
                Some(t2) => match v1y.add(t2) {
                    Some(v) => v,
                    None => {
                        return Err(FunctionError::EvalFunctionError(EvalFunctionError::Overflow));
                    },
                },
                None => {
                    return Err(FunctionError::EvalFunctionError(EvalFunctionError::Overflow));
                },
            },
            None => {
                return Err(FunctionError::EvalFunctionError(EvalFunctionError::Overflow));
            },
        };
        let v2xn = match d2n.mul(dx) {
            Some(t) => match t.div(l2) {
                Some(t2) => match v2x.add(t2) {
                    Some(v) => v,
                    None => {
                        return Err(FunctionError::EvalFunctionError(EvalFunctionError::Overflow));
                    },
                },
                None => {
                    return Err(FunctionError::EvalFunctionError(EvalFunctionError::Overflow));
                },
            },
            None => {
                return Err(FunctionError::EvalFunctionError(EvalFunctionError::Overflow));
            },
        };
        let v2yn = match d2n.mul(dy) {
            Some(t) => match t.div(l2) {
                Some(t2) => match v2y.add(t2) {
                    Some(v) => v,
                    None => {
                        return Err(FunctionError::EvalFunctionError(EvalFunctionError::Overflow));
                    },
                },
                None => {
                    return Err(FunctionError::EvalFunctionError(EvalFunctionError::Overflow));
                },
            },
            None => {
                return Err(FunctionError::EvalFunctionError(EvalFunctionError::Overflow));
            },
        };
        let p_i = match derive_pair(&self.a, b1x, b1y, v1xn, v1yn) {
            Ok(p) => p,
            Err(e) => {
                return Err(e);
            },
        };
        let p_j = match derive_pair(&self.a, b2x, b2y, v2xn, v2yn) {
            Ok(p) => p,
            Err(e) => {
                return Err(e);
            },
        };
        let (gxi, gyi) = p_i;
        let (gxj, gyj) = p_j;
        let lo: usize;
        let hi: usize;
        if i < j {
            lo = i;
            hi = j;
        } else {
            lo = j;
            hi = i;
        }
        let mut bhi = self.balls.remove(hi);
        let mut blo = self.balls.remove(lo);
        if lo == i {
            blo.install_trajectories(gxi, gyi, elapsed);
            bhi.install_trajectories(gxj, gyj, elapsed);
        } else {
            blo.install_trajectories(gxj, gyj, elapsed);
            bhi.install_trajectories(gxi, gyi, elapsed);
        }
        self.balls.insert(lo, blo);
        self.balls.insert(hi, bhi);
        proof {
            assert(self.balls@ =~= old(self).spec_balls().update(lo as int, blo).update(
                hi as int,
                bhi,
            ));
            assert forall|k: int|
                0 <= k < self.balls@.len() implies ball_wf(#[trigger] self.balls@[k]) by {
                if k != lo && k != hi {
                    assert(self.balls@[k] == old(self).spec_balls()[k]);
                }
            }
            let b1 = old(self).spec_balls()[i as int];
            let b2 = old(self).spec_balls()[j as int];
            let e = old(self).spec_elapsed()@;
            let w = collision_outcome_v(b1, b2, e);
            assert(p1@ == pair_ps(b1, b2, e).0);
            assert(p2@ == pair_ps(b1, b2, e).1);
            assert(v1xn@ == w.0 && v1yn@ == w.1 && v2xn@ == w.2 && v2yn@ == w.3);
        }
        Ok(())
    }

    /// Advances the simulation by `dt`: moves the clock, steps every ball
    /// (position from its compiled trajectory, then per-axis boundary
    /// bounces), and resolves every broad-phase collision pair in order.
    /// Any evaluation failure is propagated, never papered over; the
    /// clock never moves backward even on a failing tick. On a quiet tick
    /// — nothing bounces, nothing collides, nothing overflows — success
    /// is owed, and a ball in no candidate pair keeps its cached
    /// trajectories and anchors through the collision phase.
    pub fn tick(&mut self, dt: Rat) -> (r: Result<(), FunctionError>)
        requires
            space_wf(*old(self)),
        ensures
            space_wf(*final(self)),
            final(self).spec_a() == old(self).spec_a(),
            final(self).spec_x1() == old(self).spec_x1(),
            final(self).spec_x2() == old(self).spec_x2(),
            final(self).spec_y1() == old(self).spec_y1(),
            final(self).spec_y2() == old(self).spec_y2(),
            final(self).spec_floor() == old(self).spec_floor(),
            r is Ok ==> final(self).spec_elapsed()@ == q_add(
                old(self).spec_elapsed()@,
                dt@,
            ) && final(self).spec_balls().len() == old(self).spec_balls().len(),
            r is Err ==> final(self).spec_elapsed() == old(self).spec_elapsed() || final(self).spec_elapsed()@ == q_add(old(self).spec_elapsed()@, dt@),
            tick_quiet_ok(*old(self), dt) ==> r is Ok,
            r is Ok ==> exists|mid: Seq<Ball>|
                {
                    &&& #[trigger] mid.len() == old(self).spec_balls().len()
                    &&& (forall|k: int|
                        0 <= k < mid.len() ==> stepped(old(self).spec_balls()[k],
                        #[trigger] mid[k], final(self).spec_elapsed(), old(self).spec_x1(),
                        old(self).spec_x2(), old(self).spec_floor(), old(self).spec_a()))
                    &&& ((forall|p: int, q: int|
                        0 <= p < q < mid.len() ==> !pair_touches(mid[p], mid[q])) ==> final(self).spec_balls() == mid)
                    &&& (forall|k: int|
                        0 <= k < mid.len() && !in_touching_pair(mid, k) ==> final(self).spec_balls()[k] == mid[k])
                    &&& (forall|k: int|
                        0 <= k < mid.len() ==> {
                            let fb = final(self).spec_balls()[k];
                            &&& fb.spec_x() == (#[trigger] mid[k]).spec_x()
                            &&& fb.spec_y() == mid[k].spec_y()
                            &&& fb.spec_radius() == mid[k].spec_radius()
                            &&& fb.spec_mass() == mid[k].spec_mass()
                            &&& fb.spec_ground_bounce() == mid[k].spec_ground_bounce()
                            &&& fb.spec_free_bounce() == mid[k].spec_free_bounce()
                            &&& fb.spec_color() == mid[k].spec_color()
                        })
                },
    {
        let e1 = match self.elapsed.add(dt) {
            Some(e) => e,
            None => {
                return Err(FunctionError::EvalFunctionError(EvalFunctionError::Overflow));
            },
        };
        self.elapsed = e1;
        proof {
            assert forall|k: int|
                0 <= k < self.spec_balls().len() implies ball_wf(
                #[trigger] self.spec_balls()[k],
            ) by {
                assert(ball_wf(old(self).spec_balls()[k]));
            }
        }
        let n = self.balls.len();
        let mut i: usize = 0;
        while i < n
            invariant
                space_wf(*self),
                n == self.spec_balls().len(),
                n == old(self).spec_balls().len(),
                space_wf(*old(self)),
                i <= n,
                self.spec_a() == old(self).spec_a(),
                self.spec_elapsed() == e1,
                self.spec_x1() == old(self).spec_x1(),
                self.spec_x2() == old(self).spec_x2(),
                self.spec_y1() == old(self).spec_y1(),
                self.spec_y2() == old(self).spec_y2(),
                self.spec_floor() == old(self).spec_floor(),
                e1@ == q_add(old(self).spec_elapsed()@, dt@),
                forall|k: int|
                    0 <= k < i ==> stepped(old(self).spec_balls()[k],
                    #[trigger] self.spec_balls()[k], e1, old(self).spec_x1(),
                    old(self).spec_x2(), old(self).spec_floor(), old(self).spec_a()),
                forall|k: int|
                    i <= k < n ==> #[trigger] self.spec_balls()[k] == old(self).spec_balls()[k],
            decreases n - i,
        {
            let ghost pre = self.balls@;
            let ghost b0 = self.balls@[i as int];
            let mut b = self.balls.remove(i);
            let sr = b.step_one(e1, self.x1, self.x2, self.floor, &self.a);
            self.balls.insert(i, b);
            proof {
                assert(self.balls@ =~= pre.update(i as int, b));
                assert forall|k: int|
                    0 <= k < self.balls@.len() implies ball_wf(#[trigger] self.balls@[k]) by {
                    if k != i {
                        assert(self.balls@[k] == pre[k]);
                    }
                }
            }
            match sr {
                Ok(()) => {},
                Err(e) => {
                    proof {
                        assert(b0 == old(self).spec_balls()[i as int]);
                        assert(!step_clear(b0, e1@, old(self).spec_x1(), old(self).spec_x2(),
                            old(self).spec_floor()));
                    }
                    return Err(e);
                },
            }
            i += 1;
        }
        let ghost mid = self.balls@;
        proof {
            if tick_quiet_ok(*old(self), dt) {
                assert forall|p: int, q: int|
                    0 <= p < q < mid.len() implies pair_scan_ok(#[trigger] mid[p],
                    #[trigger] mid[q]) && !pair_touches(mid[p], mid[q]) by {
                    assert(quiet_pair_far(old(self).spec_balls()[p], old(self).spec_balls()[q],
                        e1@));
                    assert(stepped(old(self).spec_balls()[p], mid[p], e1, old(self).spec_x1(),
                        old(self).spec_x2(), old(self).spec_floor(), old(self).spec_a()));
                    assert(stepped(old(self).spec_balls()[q], mid[q], e1, old(self).spec_x1(),
                        old(self).spec_x2(), old(self).spec_floor(), old(self).spec_a()));
                }
            }
        }
        let pairs = match self.search_collision_pairs() {
            Ok(p) => p,
            Err(e) => {
                return Err(FunctionError::EvalFunctionError(e));
            },
        };
        proof {
            if pairs@.len() > 0 {
                assert(pair_touches(mid[pairs@[0].0 as int], mid[pairs@[0].1 as int]));
            }
            if tick_quiet_ok(*old(self), dt) && pairs@.len() > 0 {
                assert(!pair_touches(mid[pairs@[0].0 as int], mid[pairs@[0].1 as int]));
                assert(false);
            }
        }
        let mut t: usize = 0;
        while t < pairs.len()
            invariant
                space_wf(*self),
                self.spec_balls().len() == n,
                mid.len() == n,
                t <= pairs@.len(),
                forall|u: int|
                    0 <= u < pairs@.len() ==> (#[trigger] pairs@[u]).0 < pairs@[u].1 < n,
                pairs@.len() > 0 ==> pair_touches(mid[pairs@[0].0 as int], mid[pairs@[0].1 as int]),
                pairs@.len() == 0 ==> self.balls@ == mid,
                tick_quiet_ok(*old(self), dt) ==> pairs@.len() == 0,
                forall|u: int|
                    0 <= u < pairs@.len() ==> pair_touches(
                        mid[(#[trigger] pairs@[u]).0 as int],
                        mid[pairs@[u].1 as int],
                    ),
                forall|k: int|
                    0 <= k < n && (forall|u: int|
                        0 <= u < pairs@.len() ==> (#[trigger] pairs@[u]).0 != k && pairs@[u].1
                            != k) ==> #[trigger] self.spec_balls()[k] == mid[k],
                forall|k: int|
                    0 <= k < n ==> {
                        let fb = #[trigger] self.spec_balls()[k];
                        &&& fb.spec_x() == mid[k].spec_x()
                        &&& fb.spec_y() == mid[k].spec_y()
                        &&& fb.spec_radius() == mid[k].spec_radius()
                        &&& fb.spec_mass() == mid[k].spec_mass()
                        &&& fb.spec_ground_bounce() == mid[k].spec_ground_bounce()
                        &&& fb.spec_free_bounce() == mid[k].spec_free_bounce()
                        &&& fb.spec_color() == mid[k].spec_color()
                    },
                self.spec_a() == old(self).spec_a(),
                self.spec_elapsed() == e1,
                self.spec_x1() == old(self).spec_x1(),
                self.spec_x2() == old(self).spec_x2(),
                self.spec_y1() == old(self).spec_y1(),
                self.spec_y2() == old(self).spec_y2(),
                self.spec_floor() == old(self).spec_floor(),
                e1@ == q_add(old(self).spec_elapsed()@, dt@),
            decreases pairs@.len() - t,
        {
            let pair = pairs[t];
            let ghost before = self.balls@;
            match self.exert_collision(pair.0, pair.1) {
                Ok(()) => {},
                Err(e) => {
                    return Err(e);
                },
            }
            proof {
                assert forall|k: int|
                    0 <= k < n && (forall|u: int|
                        0 <= u < pairs@.len() ==> (#[trigger] pairs@[u]).0 != k && pairs@[u].1
                            != k) implies #[trigger] self.spec_balls()[k] == mid[k] by {
                    assert(pairs@[t as int].0 != k && pairs@[t as int].1 != k);
                    assert(self.spec_balls()[k] == before[k]);
                }
            }
            t += 1;
        }
        proof {
            if forall|p: int, q: int| 0 <= p < q < mid.len() ==> !pair_touches(mid[p], mid[q]) {
                assert(pairs@.len() == 0) by {
                    if pairs@.len() > 0 {
                        assert(!pair_touches(mid[pairs@[0].0 as int], mid[pairs@[0].1 as int]));
                    }
                }
            }
            assert forall|k: int|
                0 <= k < mid.len() && !in_touching_pair(mid, k) implies self.spec_balls()[k]
                == mid[k] by {
                assert forall|u: int|
                    0 <= u < pairs@.len() implies (#[trigger] pairs@[u]).0 != k && pairs@[u].1
                        != k by {
                    if pairs@[u].0 == k || pairs@[u].1 == k {
                        assert(pair_touches(mid[pairs@[u].0 as int], mid[pairs@[u].1 as int]));
                        assert(in_touching_pair(mid, k));
                    }
                }
            }
        }
        Ok(())
    }
}

} // verus!
