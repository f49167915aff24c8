use kinesim::drive::constant_accel;
use kinesim::drive::gravity_mps2;
use kinesim::drive::world1;
use kinesim::physics::AccelxyFunction;
use kinesim::physics::Space;
use kinesim::rational::Rat;

fn rat(n: i64, d: i64) -> Rat {
    Rat::new(n, d).unwrap()
}

fn gravity_space() -> Space {
    let ax = constant_accel(Rat::zero());
    let ay = constant_accel(gravity_mps2());
    Space::blank(AccelxyFunction::IndependentFunctions(Box::new(ax), Box::new(ay)))
}

fn freefall_space() -> Space {
    let ax = constant_accel(Rat::zero());
    let ay = constant_accel(Rat::zero());
    Space::blank(AccelxyFunction::IndependentFunctions(Box::new(ax), Box::new(ay)))
}

fn white() -> [Rat; 4] {
    [rat(1, 1), rat(1, 1), rat(1, 1), rat(1, 1)]
}

#[test]
fn gravity_space_collision() {
    let mut myspace = gravity_space();
    myspace.set_bounds(rat(-20, 1), rat(20, 1), rat(-10, 1), rat(30, 1), Rat::zero());
    let one = rat(1, 1);
    myspace
        .new_ball_unchecked(rat(10, 1), rat(10, 1), one, Rat::zero(), one, one, one, one, white())
        .unwrap();
    myspace
        .new_ball_unchecked(rat(12, 1), rat(10, 1), rat(-1, 1), Rat::zero(), one, one, one, one,
            white())
        .unwrap();
    myspace.exert_collision(0, 1).unwrap();
    // equal masses head-on with free bounce one: the velocities swap
    let t = myspace.get_elapsed();
    assert!(myspace.balls[0].get_vx(t).unwrap().eq_val(rat(-1, 1)));
    assert!(myspace.balls[1].get_vx(t).unwrap().eq_val(rat(1, 1)));
}

// A ball inside the right wall moving outward bounces: its velocity is
// scaled by minus the ground-bounce coefficient, exactly, and the Y motion
// is untouched.
#[test]
fn wall_bounce_scenario() {
    let mut myspace = freefall_space();
    myspace.set_bounds(rat(-10, 1), rat(10, 1), rat(-10, 1), rat(10, 1), rat(-100, 1));
    // at x = 9.9, radius 0.2, moving right at 5, ground bounce 0.5
    myspace
        .new_ball_unchecked(rat(99, 10), Rat::zero(), rat(5, 1), rat(3, 1), rat(2, 10), rat(1, 1),
            rat(5, 10), rat(5, 10), white())
        .unwrap();
    let vy_before = myspace.balls[0].get_vy(myspace.get_elapsed()).unwrap();
    myspace.tick(rat(1, 10)).unwrap();
    let t = myspace.get_elapsed();
    // vx is exactly -5 * 0.5 = -2.5
    assert!(myspace.balls[0].get_vx(t).unwrap().eq_val(rat(-5, 2)));
    // the Y trajectory is unaffected: same velocity as before
    assert!(myspace.balls[0].get_vy(t).unwrap().eq_val(vy_before));
}

// A ball wider than the box trips both wall tests in one tick: the left
// test passes an outward-right velocity through, the right test bounces
// it.
#[test]
fn double_wall_hit_moving_right() {
    let mut myspace = freefall_space();
    myspace.set_bounds(rat(-10, 1), rat(10, 1), rat(-10, 1), rat(10, 1), rat(-100, 1));
    myspace
        .new_ball_unchecked(Rat::zero(), Rat::zero(), rat(5, 1), rat(3, 1), rat(15, 1), rat(1, 1),
            rat(1, 2), rat(1, 2), white())
        .unwrap();
    myspace.tick(rat(1, 10)).unwrap();
    let t = myspace.get_elapsed();
    // only the right wall re-derives: vx becomes -5 * 0.5
    assert!(myspace.balls[0].get_vx(t).unwrap().eq_val(rat(-5, 2)));
    assert!(myspace.balls[0].get_vy(t).unwrap().eq_val(rat(3, 1)));
}

// The same wide ball moving left: the left wall reverses it first and
// the right wall, tested on the result, reverses it again.
#[test]
fn double_wall_hit_moving_left() {
    let mut myspace = freefall_space();
    myspace.set_bounds(rat(-10, 1), rat(10, 1), rat(-10, 1), rat(10, 1), rat(-100, 1));
    let one = rat(1, 1);
    myspace
        .new_ball_unchecked(Rat::zero(), Rat::zero(), rat(-4, 1), rat(3, 1), rat(15, 1), one, one,
            one, white())
        .unwrap();
    myspace.tick(rat(1, 10)).unwrap();
    let t = myspace.get_elapsed();
    // left bounce gives +4, then the right test sees it outward: -4 again
    assert!(myspace.balls[0].get_vx(t).unwrap().eq_val(rat(-4, 1)));
    assert!(myspace.balls[0].get_vy(t).unwrap().eq_val(rat(3, 1)));
}

// Two overlapping balls moving apart are left alone by the resolver.
#[test]
fn non_approaching_pair_not_resolved() {
    let mut myspace = freefall_space();
    let one = rat(1, 1);
    myspace
        .new_ball_unchecked(Rat::zero(), Rat::zero(), rat(-2, 1), Rat::zero(), one, one, one, one,
            white())
        .unwrap();
    myspace
        .new_ball_unchecked(one, Rat::zero(), rat(2, 1), Rat::zero(), one, one, one, one, white())
        .unwrap();
    let t = myspace.get_elapsed();
    myspace.exert_collision(0, 1).unwrap();
    assert!(myspace.balls[0].get_vx(t).unwrap().eq_val(rat(-2, 1)));
    assert!(myspace.balls[1].get_vx(t).unwrap().eq_val(rat(2, 1)));
}

// Two overlapping balls moving the same way with the leader faster are
// separating: the resolver leaves both untouched.
#[test]
fn separating_same_direction_pair_untouched() {
    let mut myspace = freefall_space();
    let one = rat(1, 1);
    myspace
        .new_ball_unchecked(Rat::zero(), Rat::zero(), one, Rat::zero(), one, one, one, one,
            white())
        .unwrap();
    myspace
        .new_ball_unchecked(one, Rat::zero(), rat(2, 1), Rat::zero(), one, one, one, one, white())
        .unwrap();
    let t = myspace.get_elapsed();
    myspace.exert_collision(0, 1).unwrap();
    assert!(myspace.balls[0].get_vx(t).unwrap().eq_val(one));
    assert!(myspace.balls[1].get_vx(t).unwrap().eq_val(rat(2, 1)));
}

// Two overlapping balls moving the same way with the chaser faster are
// genuinely closing: equal masses with free bounce one swap their
// parallel components.
#[test]
fn closing_same_direction_pair_resolved() {
    let mut myspace = freefall_space();
    let one = rat(1, 1);
    myspace
        .new_ball_unchecked(Rat::zero(), Rat::zero(), rat(2, 1), Rat::zero(), one, one, one, one,
            white())
        .unwrap();
    myspace
        .new_ball_unchecked(one, Rat::zero(), one, Rat::zero(), one, one, one, one, white())
        .unwrap();
    let t = myspace.get_elapsed();
    myspace.exert_collision(0, 1).unwrap();
    assert!(myspace.balls[0].get_vx(t).unwrap().eq_val(one));
    assert!(myspace.balls[1].get_vx(t).unwrap().eq_val(rat(2, 1)));
}

// The exact 1-D elastic outcome for unequal masses.
#[test]
fn collision_vs_exact() {
    let (w1, w2) = Space::collision_vs(rat(1, 1), rat(3, 1), rat(2, 1), Rat::zero()).unwrap();
    // w1 = (m1-m2)/(m1+m2) v1 = -1; w2 = 2 m1 v1 / (m1+m2) = 1
    assert!(w1.eq_val(rat(-1, 1)));
    assert!(w2.eq_val(rat(1, 1)));
}

// Gravity pulls a free ball down: after one tick its position dropped by
// g/2 * t^2 and its vertical velocity is g*t, exactly.
#[test]
fn gravity_tick_exact() {
    let mut myspace = gravity_space();
    myspace.set_bounds(rat(-1000, 1), rat(1000, 1), rat(-1000, 1), rat(1000, 1), rat(-1000, 1));
    let one = rat(1, 1);
    myspace
        .new_ball_unchecked(Rat::zero(), rat(100, 1), Rat::zero(), Rat::zero(), one, one, one,
            one, white())
        .unwrap();
    myspace.tick(one).unwrap();
    // y(1) = 100 + g/2 = 100 - 100.81/2 = 100 - 50.405 = 49.595
    assert!(myspace.balls[0].get_y().eq_val(rat(49595, 1000)));
    assert!(myspace.balls[0].get_x().eq_val(Rat::zero()));
    let t = myspace.get_elapsed();
    assert!(myspace.balls[0].get_vy(t).unwrap().eq_val(rat(-10081, 100)));
}

// Recompiling the evaluator twice without a hard update in between gives
// the same observable behavior.
#[test]
fn soft_update_idempotent() {
    let mut myspace = freefall_space();
    let one = rat(1, 1);
    myspace
        .new_ball_unchecked(Rat::zero(), Rat::zero(), rat(3, 1), rat(4, 1), one, one, one, one,
            white())
        .unwrap();
    myspace.tick(one).unwrap();
    let x1 = myspace.balls[0].get_x();
    let t = myspace.get_elapsed();
    let vx1 = myspace.balls[0].get_vx(t).unwrap();
    myspace.balls[0].soft_update().unwrap();
    let vx2 = myspace.balls[0].get_vx(t).unwrap();
    myspace.balls[0].soft_update().unwrap();
    let vx3 = myspace.balls[0].get_vx(t).unwrap();
    assert!(vx1.eq_val(vx2));
    assert!(vx2.eq_val(vx3));
    assert!(x1.eq_val(rat(3, 1)));
}

// The demonstration world builds and holds five readable balls. Exact
// rational state grows very quickly under its near-unit bounce
// coefficients, so a tick either succeeds or reports the overflow rather
// than papering over it; either way no ball is lost.
#[test]
fn world1_builds_and_ticks() {
    let mut w = world1().unwrap();
    assert_eq!(w.balls.len(), 5);
    assert!(w.balls[0].get_y().eq_val(rat(25, 1)));
    match w.tick(rat(1, 100)) {
        Ok(()) => {}
        Err(e) => assert_eq!(
            e,
            kinesim::kinematics::FunctionError::EvalFunctionError(
                kinesim::kinematics::EvalFunctionError::Overflow
            )
        ),
    }
    assert_eq!(w.balls.len(), 5);
}
