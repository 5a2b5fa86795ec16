use particle_sandbox::area::Area;
use particle_sandbox::growth::{
    apply_updates, find_buds, free_slot, grow_one, has_nearby, is_occupied, join_sprout,
    sprout_count, tie_pair, Bud, GrowthReading, LinkUpdate, PairReading,
};
use particle_sandbox::particle::{Particle, NO_LINK, REMOVED};
use particle_sandbox::single::Single;
use particle_sandbox::spawn::{
    blank, emit, is_covered, is_staggered, link_neighbors, node_grav_scale, node_inv_mass, room,
    seed, Region, Site, SpawnBatch, SpawnNodeMode,
};

fn s(x: f32) -> Single {
    Single::from_bits(x.to_bits())
}

fn site(x: f32, y: f32, measure: f32) -> Site {
    Site { pos: [s(x), s(y)], measure: s(measure) }
}

#[test]
fn nodes_have_their_masses() {
    let modes = [
        (SpawnNodeMode::Normal, 0.5, 1.0),
        (SpawnNodeMode::ZeroGravity, 0.5, 0.0),
        (SpawnNodeMode::SemiFixed, 0.5, -5.0),
        (SpawnNodeMode::Fixed, 0.0, 1.0),
    ];
    for (mode, inv_mass, grav) in modes {
        assert_eq!(node_inv_mass(mode, s(0.5)), s(inv_mass));
        assert_eq!(node_grav_scale(mode, s(5.0)), s(grav));
    }
}

#[test]
fn seeds_are_at_rest() {
    let p = seed([s(1.0), s(2.0)], 3, s(0.5), s(0.0));
    assert_eq!((p.pos, p.vel), ([s(1.0), s(2.0)], [s(0.0), s(0.0)]));
    assert_eq!(p.links, [NO_LINK; 6]);
    assert_eq!((p.mat_type, p.inv_mass, p.grav_scale), (3, s(0.5), s(0.0)));
    assert_eq!((p.charge, p.angle, p.temperature), (s(0.0), s(0.0), s(0.0)));
}

#[test]
fn every_second_row_is_staggered() {
    for row in [-5i32, -4, -1, 0, 1, 2, 7, i32::MIN + 1, i32::MAX] {
        assert_eq!(is_staggered(row), row.abs() % 2 != 0);
    }
    assert!(!is_staggered(i32::MIN));
}

#[test]
fn regions_cover_their_edges() {
    let disc = Region::Disc { radius: s(2.0) };
    assert!(is_covered(&disc, &site(0.0, 0.0, 2.0)));
    assert!(!is_covered(&disc, &site(0.0, 0.0, 2.1)));
    let rect = Region::Rect { area: Area::between([s(0.0), s(0.0)], [s(1.0), s(1.0)]) };
    assert!(is_covered(&rect, &site(1.0, 0.0, 9.0)));
    assert!(!is_covered(&rect, &site(1.0, -0.1, 0.0)));
    let band = Region::Band { behind: s(-1.0), ahead: s(5.0) };
    assert!(is_covered(&band, &site(0.0, 0.0, -1.0)));
    assert!(is_covered(&band, &site(0.0, 0.0, 5.0)));
    assert!(!is_covered(&band, &site(0.0, 0.0, 5.1)));
    assert!(is_covered(&band, &site(0.0, 0.0, f32::NAN)));
    assert!(!is_covered(&disc, &site(0.0, 0.0, f32::NAN)));
}

#[test]
fn a_batch_takes_sites_until_it_is_full() {
    let disc = Region::Disc { radius: s(2.0) };
    let a = vec![site(1.0, 0.0, 1.0), site(2.0, 0.0, 3.0), site(3.0, 0.0, 0.0)];
    let b = vec![site(4.0, 1.0, 1.0), site(5.0, 1.0, 1.0)];
    let mut batch = SpawnBatch::new(7, 10);
    batch.add_row(&disc, &a);
    batch.add_row(&disc, &b);
    assert_eq!(batch.places, vec![[s(1.0), s(0.0)], [s(3.0), s(0.0)], [s(4.0), s(1.0)]]);
    let mut joined = SpawnBatch::new(7, 10);
    joined.add_row(&disc, &[a.clone(), b].concat());
    assert_eq!(joined.places, batch.places);
    let particles = batch.particles(2, s(0.5), s(1.0));
    assert_eq!(particles.len(), 3);
    assert_eq!(particles[2], seed([s(4.0), s(1.0)], 2, s(0.5), s(1.0)));
    let mut full = SpawnBatch::new(11, 10);
    full.add_row(&disc, &a);
    assert!(full.places.is_empty());
    assert_eq!((room(7, 10), room(10, 10), room(11, 10)), (3, 0, 0));
}

#[test]
fn new_particles_are_linked_both_ways() {
    let gaps = |from: f32| -> Vec<Single> {
        [0.0f32, 1.0, 2.0, 10.0].iter().map(|x| s((x - from).abs())).collect()
    };
    let limit = s(1.05);
    assert_eq!(link_neighbors(0, &gaps(0.0), limit, 100), [101, -1, -1, -1, -1, -1]);
    assert_eq!(link_neighbors(1, &gaps(1.0), limit, 100), [100, 102, -1, -1, -1, -1]);
    assert_eq!(link_neighbors(3, &gaps(10.0), limit, 100), [-1; 6]);
    let crowd = vec![s(0.5); 9];
    assert_eq!(link_neighbors(2, &crowd, limit, 0), [0, 1, 3, 4, 5, 6]);
}

#[test]
fn sources_emit_while_there_is_room() {
    let points = vec![[s(1.0), s(1.0)], [s(2.0), s(2.0)], [s(3.0), s(3.0)]];
    let r = emit(&points, [s(0.5), s(-0.5)], 4, s(1.0), s(0.0), 8, 10);
    assert_eq!(r.len(), 2);
    assert_eq!(r[1].pos, [s(2.0), s(2.0)]);
    assert_eq!((r[0].vel, r[0].temperature), ([s(0.5), s(-0.5)], s(20.0)));
    assert_eq!((r[0].mat_type, r[0].grav_scale, r[0].links), (4, s(0.0), [NO_LINK; 6]));
    assert!(emit(&points, [s(0.0), s(0.0)], 4, s(1.0), s(0.0), 10, 10).is_empty());
}

fn with_links(links: [i32; 6]) -> Particle {
    Particle { links, angle: s(0.25), ..blank() }
}

fn removed() -> Particle {
    Particle { mat_type: REMOVED, ..blank() }
}

fn reading(dist: f32, best: usize) -> GrowthReading {
    let mut gaps = [s(3.0); 6];
    gaps[best] = s(0.1);
    GrowthReading { dist: s(dist), gaps }
}

#[test]
fn free_slots_in_reach_are_buds() {
    let ps = vec![
        with_links([5, -1, 3, -1, -2, 0]),
        removed(),
        with_links([-1; 6]),
    ];
    let dist = vec![s(1.0), s(0.0), s(4.0)];
    let buds = find_buds(&ps, &dist, s(1.0));
    assert_eq!(buds, vec![Bud { particle: 0, slot: 1 }, Bud { particle: 0, slot: 3 }]);
    assert_eq!(find_buds(&ps, &dist, s(4.0)).len(), 8);
    assert!(has_nearby(&ps, &dist, s(1.0)));
    assert!(!has_nearby(&ps, &dist, s(0.5)));
    assert!(!has_nearby(&vec![], &vec![], s(9.0)));
    assert!(is_occupied(&ps, &vec![s(9.0), s(0.0), s(0.1)], s(0.2)));
    assert!(!is_occupied(&ps, &vec![s(9.0), s(0.0), s(0.3)], s(0.2)));
}

#[test]
fn buds_that_lead_to_one_place_share_a_sprout() {
    let mut sprouts = Vec::new();
    let bud = |particle, slot| Bud { particle, slot };
    join_sprout(&mut sprouts, [s(1.0), s(0.0)], bud(0, 1), &vec![], s(0.5));
    join_sprout(&mut sprouts, [s(5.0), s(0.0)], bud(1, 0), &vec![s(16.0)], s(0.5));
    join_sprout(&mut sprouts, [s(1.1), s(0.0)], bud(2, 4), &vec![s(0.01), s(0.2)], s(0.5));
    assert_eq!(sprouts.len(), 2);
    assert_eq!(sprouts[0].pos, [s(1.0), s(0.0)]);
    assert_eq!(sprouts[0].parents, vec![bud(0, 1), bud(2, 4)]);
    assert_eq!(sprouts[1].parents, vec![bud(1, 0)]);
    assert_eq!(sprout_count(&sprouts, 8, 10), 2);
    assert_eq!(sprout_count(&sprouts, 9, 10), 1);
    assert_eq!(sprout_count(&sprouts, 11, 10), 0);
}

#[test]
fn a_sprout_is_tied_to_parents_and_bystanders() {
    let existing = vec![
        with_links([-1; 6]),
        with_links([9, -1, -1, -1, -1, -1]),
        with_links([1, 2, 3, 4, 5, 6]),
        removed(),
        with_links([-1; 6]),
    ];
    let mut sprouts = Vec::new();
    join_sprout(
        &mut sprouts, [s(1.0), s(2.0)], Bud { particle: 0, slot: 2 }, &vec![], s(0.5),
    );
    let readings = vec![
        reading(0.01, 3),
        reading(0.01, 3),
        reading(0.01, 5),
        reading(0.01, 4),
        reading(0.00005, 1),
    ];
    let (p, updates) =
        grow_one(&existing, &sprouts[0], &readings, s(0.02), 50, 2, s(0.5), s(1.0));
    // The parent takes port 3; the bystander that wants the same port finds none near enough, a
    // full one has no slot, a removed one is not there and one in the same place is passed over.
    assert_eq!(p.links, [-1, -1, -1, 0, -1, -1]);
    assert_eq!(updates, vec![LinkUpdate { particle: 0, slot: 2, target: 50 }]);
    assert_eq!((p.pos, p.angle, p.mat_type), ([s(1.0), s(2.0)], s(0.25), 2));
    let mut near = readings.clone();
    near[1] = reading(0.01, 0);
    let (p, updates) = grow_one(&existing, &sprouts[0], &near, s(0.02), 50, 2, s(0.5), s(1.0));
    assert_eq!(p.links, [1, -1, -1, 0, -1, -1]);
    assert_eq!(updates[1], LinkUpdate { particle: 1, slot: 1, target: 50 });
    let after = apply_updates(&existing, &updates);
    assert_eq!(after[0].links, [-1, -1, 50, -1, -1, -1]);
    assert_eq!(after[1].links, [9, 50, -1, -1, -1, -1]);
    assert_eq!(after[2], existing[2]);
}

#[test]
fn later_updates_of_a_slot_win() {
    let existing = vec![with_links([-1; 6])];
    let update = |target| LinkUpdate { particle: 0, slot: 3, target };
    let after = apply_updates(&existing, &vec![update(7), update(8)]);
    assert_eq!(after[0].links, [-1, -1, -1, 8, -1, -1]);
    assert_eq!(free_slot(&[1, 2, -1, -1, 5, 6]), Some(2));
    assert_eq!(free_slot(&[1, 2, 0, -2, 5, 6]), None);
}

#[test]
fn new_neighbors_are_tied_to_each_other() {
    let pair = |dist: f32, a: usize, b: usize| PairReading {
        dist: s(dist),
        gaps_first: reading(dist, a).gaps,
        gaps_second: reading(dist, b).gaps,
    };
    let mut fresh = vec![with_links([-1; 6]); 3];
    tie_pair(&mut fresh, 0, 2, &pair(0.01, 1, 4), s(0.02), 100);
    assert_eq!(fresh[0].links, [-1, 102, -1, -1, -1, -1]);
    assert_eq!(fresh[2].links, [-1, -1, -1, -1, 100, -1]);
    // The port is taken, they are too far apart, or in the same place.
    let before = fresh.clone();
    tie_pair(&mut fresh, 0, 1, &pair(0.01, 1, 4), s(0.02), 100);
    tie_pair(&mut fresh, 0, 1, &pair(0.02, 2, 4), s(0.02), 100);
    tie_pair(&mut fresh, 0, 1, &pair(0.0001, 2, 4), s(0.02), 100);
    assert_eq!(fresh, before);
}

#[test]
fn rectangles_share_their_positions() {
    let row: Vec<Site> = (0..6).map(|x| site(x as f32, 0.0, 0.0)).collect();
    let taken = |low: f32, high: f32| {
        let area = Area::between([s(low), s(-1.0)], [s(high), s(1.0)]);
        let mut batch = SpawnBatch::new(0, 100);
        batch.add_row(&Region::Rect { area }, &row);
        batch.places
    };
    let (a, b) = (taken(0.5, 3.5), taken(2.0, 5.0));
    assert_eq!(a, vec![[s(1.0), s(0.0)], [s(2.0), s(0.0)], [s(3.0), s(0.0)]]);
    for place in &a[1..] {
        assert_eq!(b.iter().filter(|q| *q == place).count(), 1);
    }
    assert!(!b.contains(&a[0]));
}

#[test]
fn a_batch_does_not_depend_on_the_corners() {
    let row: Vec<Site> = (0..9).map(|x| site(x as f32, 0.5, 0.0)).collect();
    let filled = |a: [f32; 2], b: [f32; 2]| {
        let area = Area::between([s(a[0]), s(a[1])], [s(b[0]), s(b[1])]);
        let mut batch = SpawnBatch::new(3, 6);
        batch.add_row(&Region::Rect { area }, &row);
        batch.places
    };
    let places = filled([2.0, 0.0], [7.0, 1.0]);
    assert_eq!(places, vec![[s(2.0), s(0.5)], [s(3.0), s(0.5)], [s(4.0), s(0.5)]]);
    assert_eq!(filled([7.0, 1.0], [2.0, 0.0]), places);
    assert_eq!(filled([2.0, 1.0], [7.0, 0.0]), places);
    assert_eq!(filled([7.0, 0.0], [2.0, 1.0]), places);
}

#[test]
fn sprouts_keep_apart() {
    let mut sprouts = Vec::new();
    let mut xs: Vec<f32> = Vec::new();
    for (k, x) in [0.0f32, 0.3, 1.0, 0.8, 2.0, 1.4].into_iter().enumerate() {
        let gaps: Vec<Single> = xs.iter().map(|y| s((x - y) * (x - y))).collect();
        let bud = Bud { particle: k, slot: 0 };
        join_sprout(&mut sprouts, [s(x), s(0.0)], bud, &gaps, s(0.25));
        xs = sprouts.iter().map(|c| f32::from_bits(c.pos[0].bits)).collect();
    }
    assert_eq!(xs, vec![0.0, 1.0, 2.0]);
    let parents: Vec<usize> = sprouts.iter().map(|c| c.parents.len()).collect();
    assert_eq!(parents, vec![2, 3, 1]);
}
