use particle_sandbox::material::MaterialDef;
use particle_sandbox::palette::{
    bar_color, card_ground, charge_color, charge_ramp, shade, ChargeBand, Shade,
};
use particle_sandbox::particle::Particle;
use particle_sandbox::preview::{outline_first, preview_stride};
use particle_sandbox::single::Single;
use particle_sandbox::spawn::blank;
use particle_sandbox::thumbnail::{blueprint_dot, blueprint_picture, scene_dot, scene_picture, tint, Spot};

fn s(x: f32) -> Single {
    Single::from_bits(x.to_bits())
}

fn spot(x: f32, y: f32) -> Spot {
    Spot { x: s(x), y: s(y) }
}

fn of(mat: u32) -> Particle {
    Particle { mat_type: mat, ..blank() }
}

fn material(color: [u8; 4]) -> MaterialDef {
    MaterialDef {
        name: String::from("m"),
        color,
        color2: None,
        mass: s(1.0),
        diameter: s(1.0),
        conn_dist_mult: s(1.5),
        link_dist_strength: s(0.5),
        link_angle_strength: s(5.0),
        melt_temp: s(1000.0),
        boil_temp: None,
        is_soft: None,
        is_noisy: None,
        surface_tension: None,
    }
}

fn pixel(bytes: &[u8], x: usize, y: usize) -> [u8; 4] {
    let at = 4 * (256 * y + x);
    [bytes[at], bytes[at + 1], bytes[at + 2], bytes[at + 3]]
}

#[test]
fn a_scene_picture_shows_its_particles() {
    let particles = vec![of(0), of(1), of(2), of(3), of(9), of(0x8000_0001), of(2)];
    let spots = vec![
        spot(0.0, 0.0), spot(255.9, 0.5), spot(10.0, 20.0), spot(10.2, 20.7), spot(-0.5, 30.0),
        spot(256.0, 5.0), spot(f32::NAN, 40.0),
    ];
    let bytes = scene_picture(&particles, &spots).bytes();
    assert_eq!(bytes.len(), 4 * 256 * 256);
    assert_eq!(pixel(&bytes, 0, 0), [100, 150, 255, 255]);
    assert_eq!(pixel(&bytes, 255, 0), [150, 150, 150, 255]);
    // The later of two dots covers the earlier one.
    assert_eq!(pixel(&bytes, 10, 20), [80, 80, 80, 255]);
    assert_eq!(pixel(&bytes, 0, 30), [255, 255, 255, 255]);
    assert_eq!(pixel(&bytes, 0, 40), [200, 200, 200, 255]);
    assert_eq!(pixel(&bytes, 1, 1), [40, 40, 40, 255]);
    let dots = bytes.chunks(4).filter(|c| *c != [40, 40, 40, 255]).count();
    assert_eq!(dots, 5);
}

#[test]
fn a_blueprint_picture_shows_material_colors() {
    let materials = vec![material([1, 2, 3, 4])];
    let particles = vec![of(0), of(1), of(0), of(0)];
    let spots = vec![spot(128.5, 128.5), spot(0.0, 255.5), spot(-0.5, 3.0), spot(f32::NAN, 4.0)];
    let bytes = blueprint_picture(&particles, &spots, &materials).bytes();
    assert_eq!(pixel(&bytes, 128, 128), [1, 2, 3, 255]);
    assert_eq!(pixel(&bytes, 0, 255), [200, 200, 200, 255]);
    assert_eq!(pixel(&bytes, 0, 3), [40, 40, 50, 255]);
    assert_eq!(pixel(&bytes, 0, 4), [40, 40, 50, 255]);
    assert_eq!(bytes.chunks(4).filter(|c| *c != [40, 40, 50, 255]).count(), 2);
    assert_eq!(tint(&particles[0], &materials), [1, 2, 3]);
}

#[test]
fn dots_are_placed_as_numbers_are_cut() {
    for v in [-2.0f32, -1.0, -0.999, -0.0, 0.0, 0.5, 17.3, 255.999, 256.0, 1.0e9, f32::NAN] {
        let i = v as i32;
        let scene = scene_dot(&of(0), &spot(v, 1.0)).place;
        assert_eq!(scene, if (0..256).contains(&i) { Some((i as u32, 1)) } else { None });
        let blueprint = blueprint_dot(&of(0), &spot(v, 1.0), &vec![]).place;
        assert_eq!(blueprint, if v >= 0.0 && v < 256.0 { Some((v as u32, 1)) } else { None });
    }
}

#[test]
fn charges_fall_into_bands() {
    assert_eq!(charge_ramp(s(0.0)).band, ChargeBand::Small);
    assert_eq!(charge_ramp(s(1000.0)).band, ChargeBand::Small);
    assert_eq!(charge_ramp(s(1000.1)).band, ChargeBand::Medium);
    assert_eq!(charge_ramp(s(100_000.0)).band, ChargeBand::Medium);
    assert_eq!(charge_ramp(s(100_001.0)).band, ChargeBand::Large);
    assert_eq!(charge_ramp(s(f32::NAN)).band, ChargeBand::Large);
    let small = charge_ramp(s(1.0));
    let medium = charge_ramp(s(2000.0));
    let large = charge_ramp(s(2.0e6));
    assert_eq!(small.from, [100, 150, 150]);
    assert_eq!(small.to, medium.from);
    assert_eq!(medium.to, large.from);
    assert_eq!(large.to, [102, 204, 255]);
}

#[test]
fn cards_and_bars_have_their_colors() {
    assert_eq!(shade(true, true), Shade::Selected);
    assert_eq!(shade(false, true), Shade::Hovered);
    assert_eq!(shade(false, false), Shade::Idle);
    assert_eq!(card_ground(Shade::Selected), [60, 60, 60, 230]);
    assert_eq!(card_ground(Shade::Hovered), [50, 50, 50, 200]);
    assert_eq!(card_ground(Shade::Idle), [35, 35, 40, 180]);
    assert_eq!(bar_color(s(0.71)), [80, 200, 120]);
    assert_eq!(bar_color(s(0.7)), [220, 180, 50]);
    assert_eq!(bar_color(s(0.3)), [220, 80, 60]);
}

#[test]
fn outlines_come_first() {
    let dists = vec![s(3.0), s(0.5), s(2.0), s(-0.0), s(0.5), s(-1.0)];
    let order = outline_first(&dists, 4);
    assert_eq!(order.len(), 4);
    assert_eq!(&order[..2], &[5, 3]);
    assert!(order[2..].contains(&1) && order[2..].contains(&4));
    assert_eq!(outline_first(&dists, 100), vec![5, 3, 1, 4, 2, 0]);
    assert!(outline_first(&vec![], 5).is_empty());
    assert_eq!(preview_stride(10_000), 1);
    assert_eq!(preview_stride(10_001), 3);
    assert_eq!(preview_stride(50_001), 8);
}

#[test]
fn ends_of_bands_are_not_mixed() {
    let blend = [1, 2, 3];
    assert_eq!(charge_color(s(-5.0), blend), [100, 150, 150]);
    assert_eq!(charge_color(s(0.0), blend), [100, 150, 150]);
    assert_eq!(charge_color(s(1000.0), blend), [81, 0, 122]);
    assert_eq!(charge_color(s(100_000.0), blend), [0, 51, 255]);
    assert_eq!(charge_color(s(500.0), blend), blend);
    assert_eq!(charge_color(s(f32::NAN), blend), blend);
}
