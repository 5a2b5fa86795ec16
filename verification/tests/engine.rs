use particle_sandbox::cpu_physics::{pos_to_cell, CpuPhysics, PhysicsResult};
use particle_sandbox::material::material_table;
use particle_sandbox::params::SimParams;
use particle_sandbox::particle::{Particle, GRABBED, NO_LINK, REMOVED};
use particle_sandbox::settle::{hold_back, joint_correction, settle, Motion, Walls};
use particle_sandbox::single::Single;

fn s(x: f32) -> Single {
    Single::from_bits(x.to_bits())
}

fn particle(x: f32, y: f32) -> Particle {
    Particle {
        pos: [s(x), s(y)],
        vel: [s(0.0), s(0.0)],
        links: [NO_LINK; 6],
        charge: s(0.0),
        angle: s(0.0),
        temperature: s(0.0),
        mat_type: 0,
        inv_mass: s(1.0),
        grav_scale: s(1.0),
    }
}

fn params() -> SimParams {
    let zero = s(0.0);
    SimParams {
        dt: s(0.5),
        mouse_active: zero,
        mouse_x: zero,
        mouse_y: zero,
        grab_radius: s(1.0),
        scene_scale: s(8.0),
        damping_factor: s(1.0),
        gravity: zero,
        grid_offset_x: zero,
        grid_offset_y: zero,
        force_reconnect: zero,
        apply_charge: s(-1.0),
        active_count: 4,
        drag_mode: 0,
        mouse_vx: zero,
        mouse_vy: zero,
        rect_min_x: zero,
        rect_min_y: zero,
        rect_max_x: zero,
        rect_max_y: zero,
        allow_dynamic_link: 1,
        mod_mat: 0xffff_ffff,
        mod_node_inv_mass: s(f32::NAN),
        mod_node_grav: s(1.0),
        mod_temp: s(f32::NAN),
        is_paused_flag: 0,
        num_gravity_sources: 0,
        allow_surface_tension: 1,
        gravity_sources: [zero; 32],
        materials: material_table(&vec![]),
    }
}

fn motion() -> Motion {
    Motion {
        drifted_pos: [s(1.0), s(2.0)],
        drifted_residue: [s(0.25), s(0.5)],
        corrected_pos: [s(3.0), s(4.0)],
        corrected_vel: [s(0.1), s(-0.1)],
        rebound: [s(0.01), s(0.02), s(0.03), s(0.04)],
        speed: s(0.2),
        capped_vel: [s(0.3), s(0.0)],
        cooled: s(7.0),
    }
}

const WALLS: (f32, f32) = (-8.0, 8.0);

fn walls() -> Walls {
    Walls { low: s(WALLS.0), high: s(WALLS.1) }
}

#[test]
fn a_new_engine_is_empty() {
    let engine = CpuPhysics::new(5);
    assert_eq!(engine.grid.len(), 1024 * 1024);
    assert!(engine.grid.iter().all(|&c| c == -1));
    assert_eq!(engine.particle_next, vec![-1; 5]);
    assert_eq!(engine.pos_residue, vec![[s(0.0), s(0.0)]; 5]);
    assert!(engine.neighbors([10, 10], 4).is_empty());
}

#[test]
fn cells_are_held_to_the_grid() {
    let cases = [
        (f32::NAN, 0), (-5.0, 0), (-0.0, 0), (0.99, 0), (1.0, 1), (511.7, 511), (1022.99, 1022),
        (1023.0, 1023), (5000.0, 1023), (f32::INFINITY, 1023),
    ];
    for (v, cell) in cases {
        assert_eq!(pos_to_cell([s(v), s(3.5)]), [cell, 3]);
        assert_eq!(v.clamp(0.0, 1023.0) as i32, cell);
    }
}

#[test]
fn cells_list_their_particles_youngest_first() {
    let mut engine = CpuPhysics::new(4);
    let mut particles = vec![particle(0.0, 0.0); 4];
    particles[2].mat_type = REMOVED;
    let cells = vec![[7, 9], [7, 9], [7, 9], [8, 9]];
    engine.populate(&particles, &cells, 4);
    assert_eq!(engine.neighbors([7, 9], 0), vec![1, 0]);
    assert_eq!(engine.neighbors([8, 9], 0), vec![3]);
    assert_eq!(engine.neighbors([7, 9], 1), vec![1, 0, 3]);
    assert_eq!(engine.neighbors([0, 0], 4), Vec::<u32>::new());
    // The lists are made anew from an emptied grid.
    let moved = vec![[100, 100], [101, 100], [0, 0], [1023, 1023]];
    engine.populate(&particles, &moved, 3);
    assert!(engine.neighbors([7, 9], 4).is_empty());
    assert_eq!(engine.neighbors([100, 100], 2), vec![0, 1]);
    assert!(engine.neighbors([1023, 1023], 2).is_empty());
    assert_eq!(engine.grid.iter().filter(|&&c| c != -1).count(), 2);
}

#[test]
fn populating_with_nothing_active_changes_nothing() {
    let mut engine = CpuPhysics::new(2);
    let particles = vec![particle(0.0, 0.0); 2];
    engine.populate(&particles, &vec![[1, 1], [1, 1]], 2);
    engine.populate(&particles, &vec![[5, 5], [5, 5]], 0);
    assert_eq!(engine.neighbors([1, 1], 0), vec![1, 0]);
}

#[test]
fn a_free_particle_drifts_and_is_corrected() {
    let p = particle(0.0, 0.0);
    let (q, residue) = settle(&p, &params(), &motion(), &walls());
    assert_eq!(q.pos, [s(3.0), s(4.0)]);
    assert_eq!(q.vel, [s(0.1), s(-0.1)]);
    assert_eq!(q.temperature, s(7.0));
    assert_eq!(residue, [s(0.25), s(0.5)]);
}

#[test]
fn without_time_corrections_leave_the_velocity() {
    let mut p = particle(0.0, 0.0);
    p.vel = [s(0.05), s(0.06)];
    let mut still = params();
    still.dt = s(0.0);
    let (q, _) = settle(&p, &still, &motion(), &walls());
    assert_eq!(q.vel, [s(0.05), s(0.06)]);
}

#[test]
fn a_pinned_particle_stays() {
    let mut p = particle(0.5, 0.5);
    p.inv_mass = s(0.0);
    p.vel = [s(1.0), s(1.0)];
    let (q, residue) = settle(&p, &params(), &motion(), &walls());
    assert_eq!(q.pos, [s(0.5), s(0.5)]);
    assert_eq!(q.vel, [s(0.0), s(0.0)]);
    assert_eq!(residue, [s(0.0), s(0.0)]);
    // A tool can carry it.
    p.mat_type = GRABBED;
    let (q, residue) = settle(&p, &params(), &motion(), &walls());
    assert_eq!(q.pos, [s(1.0), s(2.0)]);
    assert_eq!(residue, [s(0.25), s(0.5)]);
    // One that floats takes corrections.
    p.mat_type = 0;
    p.grav_scale = s(-1.0);
    let (q, _) = settle(&p, &params(), &motion(), &walls());
    assert_eq!(q.pos, [s(3.0), s(4.0)]);
}

#[test]
fn walls_turn_particles_back() {
    let p = particle(0.0, 0.0);
    let mut m = motion();
    m.corrected_pos = [s(-9.0), s(9.5)];
    let (q, _) = settle(&p, &params(), &m, &walls());
    assert_eq!(q.pos, [s(-8.0), s(8.0)]);
    assert_eq!(q.vel, [s(0.03), s(0.02)]);
    m.corrected_pos = [s(9.0), s(-9.5)];
    let (q, _) = settle(&p, &params(), &m, &walls());
    assert_eq!(q.pos, [s(8.0), s(-8.0)]);
    assert_eq!(q.vel, [s(0.04), s(0.01)]);
}

#[test]
fn speed_is_limited() {
    let p = particle(0.0, 0.0);
    let mut m = motion();
    m.speed = s(0.31);
    assert_eq!(settle(&p, &params(), &m, &walls()).0.vel, [s(0.3), s(0.0)]);
    m.speed = s(f32::INFINITY);
    assert_eq!(settle(&p, &params(), &m, &walls()).0.vel, [s(0.0), s(0.0)]);
    m.speed = s(f32::NAN);
    assert_eq!(settle(&p, &params(), &m, &walls()).0.vel, [s(0.0), s(0.0)]);
}

#[test]
fn a_step_settles_the_counted_particles_only() {
    let mut engine = CpuPhysics::new(2);
    let mut particles = vec![particle(0.0, 0.0), particle(1.0, 1.0), particle(5.0, 5.0)];
    let results: Vec<PhysicsResult> =
        particles.iter().map(|&p| PhysicsResult { particle: p, motion: motion() }).collect();
    engine.step(&mut particles, &params(), &walls(), &results, 0);
    assert_eq!(particles[0], particle(0.0, 0.0));
    engine.step(&mut particles, &params(), &walls(), &results, 3);
    assert_eq!(particles[0].pos, [s(3.0), s(4.0)]);
    assert_eq!(particles[1].pos, [s(3.0), s(4.0)]);
    assert_eq!(particles[2], particle(5.0, 5.0));
    assert_eq!(engine.pos_residue, vec![[s(0.25), s(0.5)]; 2]);
}

#[test]
fn corrections_are_joined_and_held_back() {
    let (sum, mean) = ([s(3.0), s(4.0)], [s(1.5), s(2.0)]);
    assert_eq!(joint_correction(sum, mean, s(2.0)), mean);
    assert_eq!(joint_correction(sum, mean, s(1.0)), sum);
    assert_eq!(joint_correction(sum, [s(f32::INFINITY); 2], s(0.0)), sum);
    let limit: f32 = 0.0112 * 2.0;
    assert_eq!(hold_back(sum, s(limit), mean), sum);
    assert_eq!(hold_back(sum, s(5.0), mean), mean);
    assert_eq!(hold_back(sum, s(f32::NAN), mean), sum);
}

#[test]
fn cells_follow_the_coordinates() {
    let xs = [-5.0f32, -0.0, 0.5, 0.99, 1.0, 7.9, 8.0, 255.9, 256.0, 1022.9, 1023.0, 1e9];
    let cells: Vec<i32> = xs.iter().map(|&x| pos_to_cell([s(x), s(3.0)])[0]).collect();
    assert_eq!(cells, vec![0, 0, 0, 0, 1, 7, 8, 255, 256, 1022, 1023, 1023]);
    for (&x, &c) in xs.iter().zip(&cells) {
        assert_eq!(pos_to_cell([s(500.0), s(x)]), [500, c]);
    }
}

#[test]
fn lists_of_an_earlier_step_are_forgotten() {
    let particles: Vec<Particle> = (0..4).map(|i| particle(i as f32, 0.0)).collect();
    let cells = vec![[5, 5], [6, 5], [5, 5], [40, 40]];
    let mut fresh = CpuPhysics::new(4);
    fresh.populate(&particles, &cells, 4);
    let mut used = CpuPhysics::new(4);
    used.populate(&particles, &vec![[5, 6]; 4], 4);
    used.populate(&particles, &cells, 4);
    assert_eq!(used.neighbors([5, 5], 2), vec![2, 0, 1]);
    assert_eq!(used.neighbors([5, 5], 2), fresh.neighbors([5, 5], 2));
    // Where a removed particle stands makes no difference.
    let mut gone = particles.clone();
    gone[2].mat_type = REMOVED;
    let mut a = CpuPhysics::new(4);
    a.populate(&gone, &cells, 4);
    gone[2].pos = [s(9.0), s(9.0)];
    let mut b = CpuPhysics::new(4);
    b.populate(&gone, &vec![[5, 5], [6, 5], [7, 7], [40, 40]], 4);
    assert_eq!(a.neighbors([5, 5], 2), vec![0, 1]);
    assert_eq!(b.neighbors([5, 5], 2), vec![0, 1]);
}
