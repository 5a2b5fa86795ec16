use particle_sandbox::archive::{
    decode, encode, hinge_count, particle_bytes, particles_of, read_header,
};
use particle_sandbox::catalog::newest_first;
use particle_sandbox::particle::{Particle, NO_LINK};
use particle_sandbox::single::Single;

fn s(x: f32) -> Single {
    Single::from_bits(x.to_bits())
}

fn particle(x: f32) -> Particle {
    Particle {
        pos: [s(x), s(-x)],
        vel: [s(0.5), s(0.25)],
        links: [NO_LINK, 3, NO_LINK, 0, i32::MIN, i32::MAX],
        charge: s(1.0),
        angle: s(2.0),
        temperature: s(f32::NAN),
        mat_type: 0x8000_0007,
        inv_mass: s(4.0),
        grav_scale: s(-5.0),
    }
}

#[test]
fn a_file_has_the_expected_bytes() {
    let bytes = encode(&vec![particle(1.0)], &vec![b'[', b']']);
    assert_eq!(bytes.len(), 8 + 64 + 2);
    assert_eq!(&bytes[0..4], &[1, 0, 0, 0]);
    // Three slots hold a link: one and a half bonds.
    assert_eq!(&bytes[4..8], &[1, 0, 0, 0]);
    assert_eq!(&bytes[8..12], &1.0f32.to_le_bytes());
    assert_eq!(&bytes[12..16], &(-1.0f32).to_le_bytes());
    assert_eq!(&bytes[24..28], &(-1i32).to_le_bytes());
    assert_eq!(&bytes[28..32], &3i32.to_le_bytes());
    assert_eq!(&bytes[40..44], &i32::MIN.to_le_bytes());
    assert_eq!(&bytes[44..48], &i32::MAX.to_le_bytes());
    assert_eq!(&bytes[48..52], &1.0f32.to_le_bytes());
    assert_eq!(&bytes[60..64], &0x8000_0007u32.to_le_bytes());
    assert_eq!(&bytes[68..72], &(-5.0f32).to_le_bytes());
    assert_eq!(&bytes[72..], b"[]");
}

#[test]
fn reading_gives_back_what_was_written() {
    let particles: Vec<Particle> = (0..5).map(|i| particle(i as f32 * 0.75)).collect();
    let rest = b"[{\"id\":1}]".to_vec();
    let bytes = encode(&particles, &rest);
    assert_eq!(read_header(&bytes), Some((5, 7)));
    let (read, tail) = decode(&bytes).unwrap();
    assert_eq!(read, particles);
    assert_eq!(tail, rest);
    let (read, tail) = decode(&encode(&vec![], &vec![])).unwrap();
    assert!(read.is_empty() && tail.is_empty());
}

#[test]
fn short_files_are_refused() {
    let bytes = encode(&vec![particle(1.0), particle(2.0)], &vec![]);
    for n in 0..bytes.len() {
        assert!(decode(&bytes[..n].to_vec()).is_none());
        assert_eq!(read_header(&bytes[..n].to_vec()).is_some(), n >= 8);
    }
    assert!(decode(&bytes).is_some());
    assert!(decode(&vec![255; 100]).is_none());
}

#[test]
fn bonds_are_counted_from_both_ends() {
    let mut a = particle(0.0);
    let mut b = particle(0.0);
    a.links = [1, NO_LINK, NO_LINK, NO_LINK, NO_LINK, NO_LINK];
    b.links = [NO_LINK, NO_LINK, 0, NO_LINK, NO_LINK, -7];
    assert_eq!(hinge_count(&vec![a, b]), 1);
    assert_eq!(hinge_count(&vec![a, b, a]), 1);
    assert_eq!(hinge_count(&vec![]), 0);
}

#[test]
fn files_are_listed_from_the_latest_on() {
    let stamps: Vec<Vec<u8>> = ["TS: 100", "TS: 300", "Unknown", "TS: 300", "TS: 30", ""]
        .iter()
        .map(|t| t.as_bytes().to_vec())
        .collect();
    assert_eq!(newest_first(&stamps), vec![2, 1, 3, 4, 0, 5]);
    let mut want: Vec<usize> = (0..stamps.len()).collect();
    want.sort_by(|&a, &b| stamps[b].cmp(&stamps[a]));
    assert_eq!(newest_first(&stamps), want);
    assert!(newest_first(&vec![]).is_empty());
}

#[test]
fn records_give_back_their_particles() {
    let particles = vec![particle(1.0), particle(-2.5)];
    let bytes = particle_bytes(&particles);
    assert_eq!(bytes.len(), 128);
    assert_eq!(&bytes[0..4], &1.0f32.to_le_bytes());
    assert_eq!(&bytes[64..68], &(-2.5f32).to_le_bytes());
    assert_eq!(particles_of(&bytes), Some(particles));
    assert_eq!(particles_of(&bytes[..127].to_vec()), None);
    assert_eq!(particles_of(&vec![]), Some(vec![]));
}
