use particle_sandbox::bonds::{
    bond_partner, compliance, is_long_step, settle_bonds, BondFate, BondReading,
};
use particle_sandbox::compute::{compute_particle, ParticleReadings};
use particle_sandbox::contacts::{
    at_bond_distance, contact_weight, meet_neighbors, search_radius, Contact, ContactReading,
};
use particle_sandbox::cpu_physics::CpuPhysics;
use particle_sandbox::forces::{
    admission, brake, feels_gravity, gravity_sign, gravity_source_count, heat_share, is_attracted,
    is_melted, shed_links, Admission, BrakeReading, HeatShare,
};
use particle_sandbox::material::{material_table, MaterialDef};
use particle_sandbox::params::SimParams;
use particle_sandbox::particle::{Particle, GRABBED, NO_LINK, REMOVED};
use particle_sandbox::ports::{count_links, find_port, fold};
use particle_sandbox::settle::{settle, Motion, Walls};
use particle_sandbox::single::Single;
use particle_sandbox::spawn::blank;
use particle_sandbox::tools::{apply_tool, for_device, inject_charge, park, ToolReading};

fn s(x: f32) -> Single {
    Single::from_bits(x.to_bits())
}

fn particle(x: f32, y: f32) -> Particle {
    Particle { pos: [s(x), s(y)], ..blank() }
}

fn linked(to: i32) -> Particle {
    Particle { links: [to, -1, -1, -1, -1, -1], ..particle(0.0, 0.0) }
}

fn stone() -> MaterialDef {
    MaterialDef {
        name: String::from("stone"),
        color: [1, 2, 3, 4],
        color2: None,
        mass: s(1.0),
        diameter: s(1.0),
        conn_dist_mult: s(1.0),
        link_dist_strength: s(0.5),
        link_angle_strength: s(5.0),
        melt_temp: s(1000.0),
        boil_temp: None,
        is_soft: None,
        is_noisy: None,
        surface_tension: None,
    }
}

fn params() -> SimParams {
    let zero = s(0.0);
    SimParams {
        dt: s(0.5),
        mouse_active: zero,
        mouse_x: zero,
        mouse_y: zero,
        grab_radius: s(1.0),
        scene_scale: s(8.0),
        damping_factor: s(1.0),
        gravity: zero,
        grid_offset_x: zero,
        grid_offset_y: zero,
        force_reconnect: zero,
        apply_charge: s(-1.0),
        active_count: 3,
        drag_mode: 0,
        mouse_vx: s(0.5),
        mouse_vy: s(0.25),
        rect_min_x: zero,
        rect_min_y: zero,
        rect_max_x: s(1.0),
        rect_max_y: s(1.0),
        allow_dynamic_link: 1,
        mod_mat: 0xffff_ffff,
        mod_node_inv_mass: s(f32::NAN),
        mod_node_grav: s(1.0),
        mod_temp: s(f32::NAN),
        is_paused_flag: 0,
        num_gravity_sources: 0,
        allow_surface_tension: 1,
        gravity_sources: [zero; 32],
        materials: material_table(&vec![stone()]),
    }
}

fn bond() -> BondReading {
    BondReading {
        dist: s(0.01),
        snap_dist: s(0.05),
        cursor_dist: s(5.0),
        other_cursor_dist: s(5.0),
        stretch: s(0.0),
        break_stretch: s(0.005),
        weight_sum: s(2.0),
        multiplier: s(0.1),
    }
}

fn contact() -> ContactReading {
    let mut gaps = [s(3.0); 6];
    gaps[2] = s(0.1);
    ContactReading {
        dist_sq: s(0.0001),
        dist: s(0.01),
        conn: s(0.0101),
        bond_min: s(0.0095),
        bond_max: s(0.0106),
        pull_max: s(0.025),
        weight_sum: s(2.0),
        approach: s(-0.1),
        rel_speed: s(0.01),
        own_gaps: gaps,
        other_gaps: gaps,
    }
}

fn tool() -> ToolReading {
    ToolReading {
        cursor_dist: s(0.5),
        carried_vel: [s(1.0), s(2.0)],
        ring_vel: [s(3.0), s(4.0)],
        ring_pos: [s(5.0), s(6.0)],
    }
}

fn braking() -> BrakeReading {
    BrakeReading {
        speed: s(0.1),
        impulse: s(0.1),
        budget: s(5.0),
        left: s(-4.9),
        stopped_temperature: s(30.0),
        slowed_vel: [s(0.01), s(0.0)],
        slowed_temperature: s(40.0),
    }
}

#[test]
fn lost_particles_are_put_back() {
    let mut p = linked(2);
    p.vel[1] = s(f32::NAN);
    p.temperature = s(9.0);
    match admission(&p, s(-16.0)) {
        Admission::Settled(q) => {
            assert_eq!((q.pos, q.vel), ([s(0.0), s(-16.0)], [s(0.0), s(0.0)]));
            assert_eq!((q.temperature, q.links), (s(0.0), [NO_LINK; 6]));
        }
        Admission::Active => panic!("a lost particle took part"),
    }
    let mut gone = particle(1.0, 1.0);
    gone.mat_type = REMOVED;
    assert_eq!(admission(&gone, s(-16.0)), Admission::Settled(gone));
    assert_eq!(admission(&particle(1.0, 1.0), s(-16.0)), Admission::Active);
}

#[test]
fn gravity_acts_on_what_can_fall() {
    let mut p = particle(0.0, 0.0);
    assert!(feels_gravity(&p));
    assert_eq!(gravity_sign(&p, s(1500.0)), s(1.0));
    p.inv_mass = s(-0.5);
    assert_eq!(gravity_sign(&p, s(1500.0)), s(-1.0));
    p.temperature = s(1501.0);
    assert_eq!(gravity_sign(&p, s(1500.0)), s(-0.3));
    assert_eq!(gravity_sign(&p, s(0.0)), s(-1.0));
    p.grav_scale = s(-0.001);
    assert!(!feels_gravity(&p));
    p.grav_scale = s(0.0);
    assert!(feels_gravity(&p));
    assert!(is_attracted(&p, s(0.5), s(1.0)));
    assert!(!is_attracted(&p, s(0.0), s(1.0)));
    assert!(!is_attracted(&p, s(1.0), s(1.0)));
    p.inv_mass = s(0.001);
    assert!(!feels_gravity(&p));
    assert_eq!((gravity_source_count(3), gravity_source_count(9)), (3, 8));
}

#[test]
fn heat_melts_links_away() {
    let mut p = linked(1);
    p.temperature = s(1000.0);
    assert!(!is_melted(&p, s(1000.0)));
    assert_eq!(shed_links(&p, s(1000.0)), p);
    p.temperature = s(1000.1);
    assert_eq!(shed_links(&p, s(1000.0)).links, [NO_LINK; 6]);
    p.grav_scale = s(-1.0);
    assert!(!is_melted(&p, s(1000.0)));
    assert_eq!(heat_share(&p, s(1.0)), HeatShare::Twentieth);
    p.grav_scale = s(1.0);
    assert_eq!(heat_share(&p, s(1.0)), HeatShare::Full);
    assert_eq!(heat_share(&p, s(0.0)), HeatShare::Nothing);
    p.inv_mass = s(0.0);
    assert_eq!(heat_share(&p, s(1.0)), HeatShare::Twentieth);
}

#[test]
fn floating_particles_use_up_their_budget() {
    let mut p = particle(0.0, 0.0);
    p.vel = [s(0.1), s(0.0)];
    assert_eq!(brake(&p, &braking()), p);
    p.grav_scale = s(-5.0);
    let q = brake(&p, &braking());
    assert_eq!((q.vel, q.grav_scale, q.temperature), ([s(0.0), s(0.0)], s(-4.9), s(30.0)));
    let mut m = braking();
    m.impulse = s(5.1);
    let q = brake(&p, &m);
    assert_eq!((q.vel, q.grav_scale, q.temperature), ([s(0.01), s(0.0)], s(0.0), s(40.0)));
    m.speed = s(0.0);
    assert_eq!(brake(&p, &m), p);
}

fn fate(m: BondReading, other: Particle, params: &SimParams) -> BondFate {
    let particles = vec![linked(1), other];
    let (p, fates) = settle_bonds(0, &particles[0], &particles, params, &[m; 6]);
    assert_eq!(p.links[0], if fates[0] == BondFate::Broken { NO_LINK } else { 1 });
    assert_eq!(fates[1], BondFate::Broken);
    fates[0]
}

#[test]
fn links_break_for_their_reasons() {
    let other = linked(0);
    assert_eq!(fate(bond(), other, &params()), BondFate::Working);
    assert_eq!(fate(bond(), linked(5), &params()), BondFate::Broken);
    assert_eq!(fate(bond(), Particle { mat_type: REMOVED, ..other }, &params()), BondFate::Broken);
    let hot = Particle { temperature: s(1001.0), ..other };
    assert_eq!(fate(bond(), hot, &params()), BondFate::Broken);
    let hot_floating = Particle { grav_scale: s(-1.0), ..hot };
    assert_eq!(fate(bond(), hot_floating, &params()), BondFate::Working);
    let lost = Particle { pos: [s(f32::INFINITY), s(0.0)], ..other };
    assert_eq!(fate(bond(), lost, &params()), BondFate::Broken);
    assert_eq!(fate(BondReading { dist: s(0.051), ..bond() }, other, &params()), BondFate::Broken);
    assert_eq!(fate(BondReading { dist: s(0.000001), ..bond() }, other, &params()), BondFate::Broken);
    assert_eq!(fate(BondReading { stretch: s(0.006), ..bond() }, other, &params()), BondFate::Broken);
    assert_eq!(fate(BondReading { weight_sum: s(0.0), ..bond() }, other, &params()), BondFate::Slack);
    let lost_solution = BondReading { multiplier: s(f32::NAN), ..bond() };
    assert_eq!(fate(lost_solution, other, &params()), BondFate::Broken);
    let near = BondReading { other_cursor_dist: s(0.5), ..bond() };
    assert_eq!(fate(near, other, &params()), BondFate::Working);
    let cutting = SimParams { force_reconnect: s(1.0), ..params() };
    assert_eq!(fate(near, other, &cutting), BondFate::Broken);
    let fewer = SimParams { active_count: 1, ..params() };
    assert_eq!(fate(bond(), other, &fewer), BondFate::Broken);
    assert_eq!(bond_partner(&linked(1), 0, 2), Some(1));
    assert_eq!(bond_partner(&linked(1), 0, 1), None);
    assert_eq!(bond_partner(&linked(1), 1, 2), None);
}

#[test]
fn the_nearest_free_port_is_taken() {
    let gaps = [s(0.5), s(0.2), s(0.1), s(0.2), s(0.05), s(9.0)];
    let links = [-1, -1, 7, -1, 8, -1];
    assert_eq!(find_port(&links, &gaps, s(0.6)), Some(1));
    assert_eq!(find_port(&links, &gaps, s(0.2)), None);
    assert_eq!(find_port(&[1; 6], &gaps, s(100.0)), None);
    assert_eq!(count_links(&links), 2);
}

fn meet(p: Particle, other: Particle, m: ContactReading, params: &SimParams) -> (Particle, Contact) {
    let particles = vec![p, other];
    let (q, contacts) = meet_neighbors(0, &p, &particles, params, s(0.5), &vec![1], &vec![m]);
    (q, contacts[0])
}

#[test]
fn neighbors_collide_bond_and_spread() {
    let p = particle(0.0, 0.0);
    let (q, c) = meet(p, p, contact(), &params());
    assert_eq!(q.links, [-1, -1, 1, -1, -1, -1]);
    assert!(c.collides && c.rebounds && c.bonds && c.spreads && !c.pulls && !c.drags);
    // A linked neighbour does not collide and is not linked again.
    let (q, c) = meet(linked(1), p, contact(), &params());
    assert_eq!(q.links, [1, -1, -1, -1, -1, -1]);
    assert!(!c.collides && !c.bonds && c.spreads);
    // Too fast, too far, too hot, full, forbidden, or barred by the cursor: no bond.
    let full = Particle { links: [1, 2, 3, 4, 5, 6], ..p };
    let hot = Particle { temperature: s(1001.0), ..p };
    let off = SimParams { allow_dynamic_link: 0, ..params() };
    let barred = SimParams { force_reconnect: s(2.0), ..params() };
    let bonds = [
        meet(p, p, ContactReading { rel_speed: s(0.05), ..contact() }, &params()),
        meet(p, p, ContactReading { dist: s(0.0107), ..contact() }, &params()),
        meet(p, p, ContactReading { own_gaps: [s(0.4); 6], ..contact() }, &params()),
        meet(p, p, ContactReading { other_gaps: [s(0.4); 6], ..contact() }, &params()),
        meet(hot, p, contact(), &params()),
        meet(p, hot, contact(), &params()),
        meet(p, full, contact(), &params()),
        meet(p, p, contact(), &off),
        meet(p, p, contact(), &barred),
    ];
    for (q, c) in bonds {
        assert!(!c.bonds);
        assert_eq!(q.links, [NO_LINK; 6]);
    }
}

#[test]
fn neighbors_out_of_reach_are_passed_over() {
    let p = particle(0.0, 0.0);
    let none = Contact {
        collides: false, rebounds: false, bonds: false, spreads: false, pulls: false, drags: false,
    };
    let far = ContactReading { dist_sq: s(0.2), ..contact() };
    assert_eq!(meet(p, p, far, &params()).1, none);
    let lost = Particle { pos: [s(f32::NAN), s(0.0)], ..p };
    assert_eq!(meet(p, lost, contact(), &params()).1, none);
    let alone = SimParams { active_count: 1, ..params() };
    assert_eq!(meet(p, p, contact(), &alone).1, none);
    let particles = vec![p];
    let itself = meet_neighbors(0, &p, &particles, &params(), s(0.5), &vec![0], &vec![contact()]);
    assert_eq!(itself.1, vec![none]);
}

#[test]
fn surface_tension_draws_equals_together() {
    let p = particle(0.0, 0.0);
    let apart = ContactReading { dist: s(0.02), approach: s(0.1), ..contact() };
    let (_, c) = meet(p, p, apart, &params());
    assert!(c.pulls && c.drags && !c.collides);
    let other = Particle { mat_type: 1, ..p };
    assert!(!meet(p, other, apart, &params()).1.pulls);
    let off = SimParams { allow_surface_tension: 0, ..params() };
    assert!(!meet(p, p, apart, &off).1.pulls);
    assert!(!meet(p, p, ContactReading { dist: s(0.025), ..apart }, &params()).1.pulls);
}

#[test]
fn weights_and_sight() {
    let mut p = particle(0.0, 0.0);
    p.inv_mass = s(-0.25);
    assert_eq!(contact_weight(&p), s(0.25));
    p.grav_scale = s(-1.0);
    assert_eq!(contact_weight(&p), s(0.5));
    assert_eq!(search_radius(&p, 5, s(800.0)), 4);
    assert_eq!(search_radius(&p, 6, s(800.0)), 2);
    p.temperature = s(801.0);
    assert_eq!(search_radius(&p, 6, s(800.0)), 4);
    assert!(at_bond_distance(&contact()));
    assert!(!at_bond_distance(&ContactReading { dist: s(0.0095), ..contact() }));
}

fn tooled(mode: u32, p: &Particle) -> Particle {
    apply_tool(p, &SimParams { drag_mode: mode, ..params() }, &tool()).0
}

#[test]
fn grabs_take_hold_and_let_go() {
    let p = particle(0.0, 0.0);
    for mode in [2, 7, 10] {
        let q = tooled(mode, &p);
        assert_eq!(q.mat_type, GRABBED);
        assert_eq!(q.angle, if mode == 10 { s(0.5) } else { s(0.0) });
        assert_eq!(tooled(mode + 2, &q).mat_type, 0);
    }
    let pinned = Particle { inv_mass: s(0.0), ..p };
    assert_eq!(tooled(2, &pinned), pinned);
    let held = Particle { mat_type: GRABBED, ..p };
    for mode in [3, 8] {
        let r = apply_tool(&held, &SimParams { drag_mode: mode, ..params() }, &tool());
        assert_eq!((r.0.vel, r.1), ([s(1.0), s(2.0)], true));
        assert_eq!(tooled(mode, &p), p);
    }
    let q = tooled(11, &held);
    assert_eq!((q.vel, q.pos), ([s(3.0), s(4.0)], [s(5.0), s(6.0)]));
    let close = ToolReading { cursor_dist: s(0.0001), ..tool() };
    let q = apply_tool(&held, &SimParams { drag_mode: 11, ..params() }, &close).0;
    assert_eq!((q.vel, q.pos), ([s(0.5), s(0.25)], held.pos));
}

#[test]
fn erasers_park_what_they_hit() {
    let p = Particle { mat_type: 5, ..linked(1) };
    let gone = park(&p);
    assert_eq!(gone.mat_type, REMOVED | 5);
    assert_eq!((gone.pos, gone.vel), ([s(20_000.0), s(20_000.0)], [s(0.0), s(0.0)]));
    assert_eq!((gone.inv_mass, gone.links), (s(0.0), [NO_LINK; 6]));
    assert_eq!(tooled(5, &p), gone);
    assert_eq!(tooled(6, &p), gone);
    assert_eq!(tooled(14, &p), gone);
    let outside = Particle { pos: [s(1.1), s(0.0)], ..p };
    assert_eq!(tooled(6, &outside), outside);
    let pinned = Particle { inv_mass: s(0.0), ..p };
    assert_eq!(tooled(14, &pinned), pinned);
}

#[test]
fn the_brush_changes_what_it_is_told() {
    let p = Particle { mat_type: GRABBED | 5, ..particle(0.0, 0.0) };
    assert_eq!(tooled(13, &p), p);
    let all = SimParams {
        drag_mode: 13,
        mod_mat: 2,
        mod_node_inv_mass: s(0.0),
        mod_node_grav: s(-1.0),
        mod_temp: s(0.0),
        ..params()
    };
    let hot = Particle { temperature: s(50.0), ..p };
    let q = apply_tool(&hot, &all, &tool()).0;
    assert_eq!(q.mat_type, GRABBED | 2);
    assert_eq!((q.inv_mass, q.grav_scale, q.temperature), (s(0.0), s(-1.0), s(0.0)));
    let far = ToolReading { cursor_dist: s(1.0), ..tool() };
    assert_eq!(apply_tool(&hot, &all, &far).0, hot);
    let charge = SimParams { apply_charge: s(7.0), ..params() };
    assert_eq!(inject_charge(&p, &charge, s(0.5)).charge, s(7.0));
    assert_eq!(inject_charge(&p, &charge, s(1.0)).charge, s(0.0));
    assert_eq!(inject_charge(&p, &params(), s(0.5)).charge, s(0.0));
}

fn readings(contacts: Vec<ContactReading>) -> ParticleReadings {
    ParticleReadings {
        refuge_y: s(-16.0),
        pulled_vel: [s(0.01), s(-0.01)],
        bonds: [bond(); 6],
        softening: s(800.0),
        cell: [5, 5],
        contacts,
        pushed_vel: [s(0.02), s(-0.02)],
        heat: s(1.0),
        heated: s(1.0),
        heated_twentieth: s(0.05),
        leveled_charge: s(3.0),
        leaked_charge: s(4.0),
        tool: tool(),
        damped_vel: [s(0.03), s(-0.03)],
        speed_loss: s(0.001),
        drag_heated: s(2.0),
        drag_heated_twentieth: s(0.1),
        brake: braking(),
    }
}

fn engine(particles: &Vec<Particle>) -> CpuPhysics {
    let mut e = CpuPhysics::new(particles.len() as u32);
    e.populate(particles, &vec![[5, 5]; particles.len()], particles.len() as u32);
    e
}

#[test]
fn a_step_runs_through_its_stages() {
    let p = particle(0.0, 0.0);
    let particles = vec![linked(1), linked(0), p];
    let e = engine(&particles);
    assert_eq!(e.neighbors([5, 5], 4), vec![2, 1, 0]);
    let m = readings(vec![contact(); 3]);
    let out = compute_particle(0, &particles, &params(), &e, &m);
    assert_eq!(out.fates[0], BondFate::Working);
    assert_eq!(out.particle.links, [1, -1, 2, -1, -1, -1]);
    assert_eq!(out.particle.vel, [s(0.03), s(-0.03)]);
    assert_eq!((out.particle.charge, out.particle.temperature), (s(3.0), s(2.0)));
    assert_eq!(out.particle.pos, particles[0].pos);
    assert!(out.contacts[0].bonds && !out.contacts[1].bonds && !out.contacts[2].spreads);
    assert!(!out.drops_correction);
    // Paused, the velocity is not damped.
    let paused = SimParams { is_paused_flag: 1, ..params() };
    let out = compute_particle(0, &particles, &paused, &e, &m);
    assert_eq!((out.particle.vel, out.particle.temperature), ([s(0.02), s(-0.02)], s(1.0)));
}

#[test]
fn removed_and_lost_particles_skip_the_stages() {
    let gone = Particle { mat_type: REMOVED, ..linked(1) };
    let lost = Particle { vel: [s(f32::NAN), s(0.0)], ..linked(0) };
    let particles = vec![gone, lost];
    let e = engine(&particles);
    let m = readings(vec![]);
    let out = compute_particle(0, &particles, &params(), &e, &m);
    assert_eq!(out.particle, gone);
    assert_eq!(out.fates, [BondFate::Broken; 6]);
    let out = compute_particle(1, &particles, &params(), &e, &m);
    assert_eq!(out.particle.pos, [s(0.0), s(-16.0)]);
    assert_eq!(out.particle.links, [NO_LINK; 6]);
    assert_eq!(out.fates, [BondFate::Broken; 6]);
}

#[test]
fn a_pinned_particle_takes_a_twentieth_of_the_heat() {
    let pinned = Particle { inv_mass: s(0.0), ..particle(0.0, 0.0) };
    let particles = vec![pinned];
    let e = engine(&particles);
    let m = readings(vec![contact()]);
    let out = compute_particle(0, &particles, &params(), &e, &m);
    assert_eq!(out.particle.temperature, s(0.1));
    assert_eq!(out.particle.charge, s(4.0));
    assert_eq!(out.particle.pos, pinned.pos);
}

#[test]
fn a_melted_particle_forgets_links_to_nowhere() {
    let hot = Particle { temperature: s(1.0e6), ..linked(2) };
    let particles = vec![hot];
    let e = engine(&particles);
    let m = readings(vec![contact()]);
    let out = compute_particle(0, &particles, &params(), &e, &m);
    assert_eq!(out.particle.links, [NO_LINK; 6]);
    assert_eq!(out.fates, [BondFate::Broken; 6]);
}

#[test]
fn only_an_eraser_removes() {
    let gone = Particle { mat_type: REMOVED, ..particle(0.0, 0.0) };
    let here = particle(0.0, 0.0);
    let particles = vec![gone, here];
    let e = engine(&particles);
    let m = readings(vec![contact()]);
    for mode in 0..14 {
        let with_tool = SimParams { drag_mode: mode, ..params() };
        let out = compute_particle(0, &particles, &with_tool, &e, &m);
        assert_eq!(out.particle.mat_type & REMOVED, REMOVED);
        let out = compute_particle(1, &particles, &with_tool, &e, &m);
        let erased = out.particle.mat_type & REMOVED != 0;
        assert_eq!(erased, mode == 5 || mode == 6, "{}", mode);
    }
}

#[test]
fn soft_links_and_long_steps_give_way() {
    assert_eq!(compliance(0), s(0.00001));
    assert_eq!(compliance(6), s(0.00001));
    assert_eq!(compliance(3), s(0.00001 * 400.0));
    assert!(!is_long_step(s(0.005)));
    assert!(is_long_step(s(0.0051)));
}

#[test]
fn angles_are_folded_at_half_a_turn() {
    let pi = std::f32::consts::PI;
    assert_eq!(fold(s(pi), s(1.0)), s(pi));
    assert_eq!(fold(s(4.0), s(2.25)), s(2.25));
}

#[test]
fn every_number_is_a_request_of_the_brush() {
    let cold = SimParams {
        drag_mode: 13,
        mod_node_inv_mass: s(-2.0),
        mod_node_grav: s(0.5),
        mod_temp: s(-10.0),
        ..params()
    };
    let q = apply_tool(&particle(0.0, 0.0), &cold, &tool()).0;
    assert_eq!((q.inv_mass, q.grav_scale, q.temperature), (s(-2.0), s(0.5), s(-10.0)));
    assert_eq!(for_device(s(f32::NAN), s(-2.0)), s(-2.0));
    assert_eq!(for_device(s(-10.0), s(-2.0)), s(-10.0));
}

#[test]
fn no_tool_but_eraser_and_brush_moves_a_wall() {
    let wall = Particle { inv_mass: s(0.0), ..particle(0.0, 0.0) };
    let particles = vec![wall];
    let e = engine(&particles);
    let m = readings(vec![contact()]);
    for mode in [0, 1, 2, 3, 4, 7, 8, 9, 10, 11, 12, 14] {
        let with_tool = SimParams { drag_mode: mode, ..params() };
        let out = compute_particle(0, &particles, &with_tool, &e, &m);
        assert_eq!(out.particle.pos, wall.pos);
        assert_eq!(out.particle.mat_type, wall.mat_type);
        assert_eq!(out.particle.inv_mass, wall.inv_mass);
    }
}

#[test]
fn removed_particles_influence_no_other() {
    let near = linked(1);
    let gone = Particle { mat_type: REMOVED, ..linked(0) };
    let hot = Particle { temperature: s(1.0e6), charge: s(9.0), pos: [s(0.01), s(0.0)], ..gone };
    let (a, b) = (vec![near, gone, near], vec![near, hot, near]);
    let (ea, eb) = (engine(&a), engine(&b));
    let m = readings(vec![contact(); 2]);
    let x = compute_particle(0, &a, &params(), &ea, &m);
    let y = compute_particle(0, &b, &params(), &eb, &m);
    assert_eq!(x.particle, y.particle);
    assert_eq!((x.fates, x.contacts), (y.fates, y.contacts));
}

#[test]
fn links_stay_different_and_never_lead_back() {
    let first = Particle { links: [0, 1, -1, -5, -1, -1], ..particle(0.0, 0.0) };
    let particles = vec![first, linked(0), particle(0.0, 0.0)];
    let e = engine(&particles);
    let mut m = readings(vec![contact(); 3]);
    m.bonds[0].dist = s(0.0);
    let out = compute_particle(0, &particles, &params(), &e, &m);
    let links: Vec<i32> = out.particle.links.iter().copied().filter(|&l| l != NO_LINK).collect();
    assert!(links.contains(&1) && !links.contains(&0));
    for (a, l) in links.iter().enumerate() {
        assert!(!links[a + 1..].contains(l));
    }
}

#[test]
fn release_undoes_grab_over_two_steps() {
    let walls = Walls { low: s(-8.0), high: s(8.0) };
    let still = |p: &Particle| Motion {
        drifted_pos: p.pos,
        drifted_residue: [s(0.0); 2],
        corrected_pos: p.pos,
        corrected_vel: p.vel,
        rebound: [s(0.0); 4],
        speed: s(0.1),
        capped_vel: p.vel,
        cooled: p.temperature,
    };
    let step = |p: Particle, mode: u32| {
        let particles = vec![p];
        let e = engine(&particles);
        let with_tool = SimParams { drag_mode: mode, ..params() };
        let out = compute_particle(0, &particles, &with_tool, &e, &readings(vec![contact()]));
        settle(&out.particle, &with_tool, &still(&out.particle), &walls).0
    };
    let free = Particle { mat_type: 5, ..particle(0.0, 0.0) };
    let held = step(free, 7);
    assert_eq!(held.mat_type, GRABBED | 5);
    assert_eq!(step(held, 9).mat_type, 5);
    let wall = Particle { inv_mass: s(0.0), ..free };
    assert_eq!(step(wall, 7).mat_type, 5);
    assert_eq!(step(step(wall, 7), 9).mat_type, 5);
}
