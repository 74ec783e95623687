use nbody::room::particle_count;
use nbody::run_loop::{RunLoop, RunState, TickOutcome};
use nbody::store::ParticleStore;
use rand::rngs::StdRng;
use rand::{Rng, SeedableRng};

const G: f64 = 6.6743e-11;

type Vec2 = (f64, f64);

fn pull(v: Vec2, p: Vec2, q: Vec2, dt: f64) -> Vec2 {
    let dx = p.0 - q.0;
    let dy = p.1 - q.1;
    let r2 = dx * dx + dy * dy;
    let r = r2.sqrt();
    let force_mag = G / r2;
    (v.0 + force_mag * dx / r * dt, v.1 + force_mag * dy / r * dt)
}

fn advance(p: Vec2, v: Vec2, dt: f64) -> Vec2 {
    (p.0 + v.0 * dt, p.1 + v.1 * dt)
}

fn tick_physics(store: &mut ParticleStore<Vec2, Vec2>, dt: f64) {
    store.step(|v, p, q| pull(v, p, q, dt), |p, v| advance(p, v, dt));
}

fn cells_of(hx: f64, hy: f64) -> i64 {
    ((2.0 * hx) * (2.0 * hy)) as i64
}

fn seeded_store(seed: u64, hx: f64, hy: f64) -> ParticleStore<Vec2, Vec2> {
    let mut rng = StdRng::seed_from_u64(seed);
    let n = particle_count(cells_of(hx, hy));
    let mut positions = Vec::new();
    for _ in 0..n {
        let x: f64 = rng.gen_range(-hx, hx);
        let y: f64 = rng.gen_range(-hy, hy);
        positions.push((x, y));
    }
    ParticleStore::from_positions(positions, (0.0, 0.0))
}

#[test]
fn room_of_size_ten_holds_one_hundred_particles() {
    assert_eq!(particle_count(cells_of(5.0, 5.0)), 100);
}

#[test]
fn fractional_area_is_truncated() {
    assert_eq!(particle_count(cells_of(1.75, 1.75)), 12);
    assert_eq!(particle_count(cells_of(0.2, 0.2)), 0);
}

#[test]
fn empty_or_negative_room_holds_no_particles() {
    assert_eq!(particle_count(0), 0);
    assert_eq!(particle_count(-9), 0);
    assert_eq!(particle_count(cells_of(-2.0, 3.0)), 0);
}

#[test]
fn initialized_particles_are_in_bounds_and_at_rest() {
    let store = seeded_store(7, 5.0, 3.0);
    assert_eq!(store.len(), 60);
    for i in 0..store.len() {
        let p = store.position(i);
        assert!(-5.0 <= p.0 && p.0 < 5.0);
        assert!(-3.0 <= p.1 && p.1 < 3.0);
        assert_eq!(store.velocity(i), (0.0, 0.0));
    }
}

#[test]
fn from_positions_keeps_order_and_rests_every_particle() {
    let store = ParticleStore::from_positions(vec![(1.0, 2.0), (-3.0, 4.5)], (0.0, 0.0));
    assert_eq!(store.len(), 2);
    assert_eq!(store.position(0), (1.0, 2.0));
    assert_eq!(store.position(1), (-3.0, 4.5));
    assert_eq!(store.velocity(0), (0.0, 0.0));
    assert_eq!(store.velocity(1), (0.0, 0.0));
}

#[test]
fn two_distinct_particles_stay_finite() {
    let mut store = ParticleStore::from_positions(vec![(0.5, -1.0), (2.0, 3.0)], (0.0, 0.0));
    for _ in 0..1000 {
        tick_physics(&mut store, 0.016);
    }
    for i in 0..2 {
        let p = store.position(i);
        let v = store.velocity(i);
        assert!(p.0.is_finite() && p.1.is_finite());
        assert!(v.0.is_finite() && v.1.is_finite());
    }
}

#[test]
fn symmetric_pair_gets_opposite_velocity_updates() {
    let mut store = ParticleStore::from_positions(vec![(-1.5, 2.0), (1.5, -2.0)], (0.0, 0.0));
    tick_physics(&mut store, 0.5);
    let v0 = store.velocity(0);
    let v1 = store.velocity(1);
    assert!(v0 != (0.0, 0.0));
    assert_eq!(v0.0, -v1.0);
    assert_eq!(v0.1, -v1.1);
    // The displacement is taken from the other particle to the particle itself.
    assert!(v0.0 < 0.0 && v0.1 > 0.0);
}

#[test]
fn pair_force_follows_the_inverse_square_law() {
    let mut store = ParticleStore::from_positions(vec![(0.0, 0.0), (3.0, 4.0)], (0.0, 0.0));
    tick_physics(&mut store, 2.0);
    let force_mag = G / 25.0;
    assert_eq!(store.velocity(0), (force_mag * -3.0 / 5.0 * 2.0, force_mag * -4.0 / 5.0 * 2.0));
    assert_eq!(store.velocity(1), (force_mag * 3.0 / 5.0 * 2.0, force_mag * 4.0 / 5.0 * 2.0));
    let v0 = store.velocity(0);
    assert_eq!(store.position(0), (0.0 + v0.0 * 2.0, 0.0 + v0.1 * 2.0));
}

#[test]
fn step_uses_positions_from_before_the_tick() {
    let mut store: ParticleStore<i64, i64> = ParticleStore::from_positions(vec![0, 10, 30], 0);
    store.step(|v, p, q| v + (p - q), |p, v| p + v);
    assert_eq!(store.velocity(0), -40);
    assert_eq!(store.velocity(1), -10);
    assert_eq!(store.velocity(2), 50);
    assert_eq!(store.position(0), -40);
    assert_eq!(store.position(1), 0);
    assert_eq!(store.position(2), 80);
}

#[test]
fn step_visits_other_particles_in_index_order() {
    let mut store: ParticleStore<i64, i64> = ParticleStore::from_positions(vec![1, 2, 3], 0);
    store.step(|v, _p, q| v * 10 + q, |p, _v| p);
    assert_eq!(store.velocity(0), 23);
    assert_eq!(store.velocity(1), 13);
    assert_eq!(store.velocity(2), 12);
    assert_eq!(store.position(0), 1);
}

#[test]
fn run_of_five_ticks_steps_five_times_then_terminates_once() {
    let mut run = RunLoop::new(5);
    let mut steps = 0;
    let mut signals = 0;
    for _ in 0..20 {
        match run.tick() {
            TickOutcome::Step => steps += 1,
            TickOutcome::Terminate => signals += 1,
            TickOutcome::Idle => {}
        }
    }
    assert_eq!(steps, 5);
    assert_eq!(signals, 1);
    assert!(run.is_terminated());
    assert_eq!(run.elapsed_ticks, 5);
    assert_eq!(run.state, RunState::Terminated);
}

#[test]
fn run_ticks_come_in_order() {
    let mut run = RunLoop::new(2);
    assert_eq!(run.tick(), TickOutcome::Step);
    assert_eq!(run.tick(), TickOutcome::Step);
    assert!(!run.is_terminated());
    assert_eq!(run.tick(), TickOutcome::Terminate);
    assert_eq!(run.tick(), TickOutcome::Idle);
    assert_eq!(run.elapsed_ticks, 2);
}

#[test]
fn run_with_no_budget_terminates_at_once() {
    let mut zero = RunLoop::new(0);
    assert_eq!(zero.tick(), TickOutcome::Terminate);
    let mut negative = RunLoop::new(-3);
    assert_eq!(negative.tick(), TickOutcome::Terminate);
    assert_eq!(negative.tick(), TickOutcome::Idle);
    assert_eq!(negative.elapsed_ticks, 0);
}

fn seeded_run(seed: u64) -> ParticleStore<Vec2, Vec2> {
    let mut store = seeded_store(seed, 2.0, 2.0);
    let mut run = RunLoop::new(25);
    while run.tick() == TickOutcome::Step {
        tick_physics(&mut store, 0.01);
    }
    store
}

#[test]
fn seeded_runs_are_bit_identical() {
    let a = seeded_run(42);
    let b = seeded_run(42);
    assert_eq!(a.len(), 16);
    assert_eq!(b.len(), 16);
    for i in 0..a.len() {
        let (pa, pb) = (a.position(i), b.position(i));
        let (va, vb) = (a.velocity(i), b.velocity(i));
        assert_eq!(pa.0.to_bits(), pb.0.to_bits());
        assert_eq!(pa.1.to_bits(), pb.1.to_bits());
        assert_eq!(va.0.to_bits(), vb.0.to_bits());
        assert_eq!(va.1.to_bits(), vb.1.to_bits());
    }
}

#[test]
fn single_particle_never_moves() {
    let mut store = ParticleStore::from_positions(vec![(1.25, -0.75)], (0.0, 0.0));
    let mut run = RunLoop::new(50);
    while run.tick() == TickOutcome::Step {
        tick_physics(&mut store, 0.1);
    }
    assert_eq!(store.velocity(0), (0.0, 0.0));
    assert_eq!(store.position(0), (1.25, -0.75));
}

#[test]
fn empty_store_runs_without_error() {
    let mut store = seeded_store(3, 0.0, 0.0);
    assert_eq!(store.len(), 0);
    let mut run = RunLoop::new(3);
    while run.tick() == TickOutcome::Step {
        tick_physics(&mut store, 0.1);
    }
    assert_eq!(store.len(), 0);
}
