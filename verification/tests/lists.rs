use particle_sandbox::area::Area;
use particle_sandbox::compact::{collect_garbage, compact, copy_box, is_shiftable, paste};
use particle_sandbox::device::{
    adopt, byte_range, catch_up, drawn_count, grid_groups, groups, pass_plan, pick_format,
    ByteRange, Groups, PassPlan, Search,
};
use particle_sandbox::capacity::ComputeMode;
use particle_sandbox::particle::{Particle, NO_LINK, REMOVED};
use particle_sandbox::single::Single;
use particle_sandbox::spawn::blank;

fn s(x: f32) -> Single {
    Single::from_bits(x.to_bits())
}

fn at(x: f32, links: [i32; 6]) -> Particle {
    Particle { pos: [s(x), s(0.0)], links, ..blank() }
}

fn removed(x: f32) -> Particle {
    Particle { mat_type: REMOVED | 3, ..at(x, [NO_LINK; 6]) }
}

#[test]
fn gaps_are_closed_and_links_follow() {
    let list = vec![
        at(0.0, [2, 1, -1, 4, 99, -5]),
        removed(1.0),
        at(2.0, [0, 4, -1, -1, -1, -1]),
        removed(3.0),
        at(4.0, [2, 0, 3, -1, -1, -1]),
    ];
    let r = compact(&list);
    assert_eq!(r.len(), 3);
    assert_eq!(r[0], at(0.0, [1, -1, -1, 2, -1, -1]));
    assert_eq!(r[1], at(2.0, [0, 2, -1, -1, -1, -1]));
    assert_eq!(r[2], at(4.0, [1, 0, -1, -1, -1, -1]));
    assert_eq!(collect_garbage(&list), Some(r.clone()));
    // Nothing left to do the second time.
    assert_eq!(compact(&r), r);
    assert_eq!(collect_garbage(&r), None);
    assert_eq!(collect_garbage(&vec![removed(0.0)]), Some(vec![]));
}

#[test]
fn a_list_without_gaps_is_left_alone() {
    let list = vec![at(0.0, [77, -9, 0, 0, 0, 0])];
    assert_eq!(collect_garbage(&list), None);
}

#[test]
fn copies_keep_links_inside_the_box() {
    let list = vec![
        at(0.0, [1, 2, -1, -5, 50, -1]),
        at(5.0, [0, -1, -1, -1, -1, -1]),
        at(1.0, [0, 1, -1, -1, -1, -1]),
    ];
    let area = Area::between([s(1.0), s(1.0)], [s(0.0), s(-1.0)]);
    let copy = copy_box(&list, area).unwrap();
    assert_eq!(copy, vec![at(0.0, [-1, 1, -1, -5, -1, -1]), at(1.0, [0, -1, -1, -1, -1, -1])]);
    let far = Area::between([s(100.0), s(100.0)], [s(101.0), s(101.0)]);
    assert_eq!(copy_box(&list, far), None);
}

#[test]
fn pasted_links_stay_within_the_copy() {
    let copy = vec![at(0.0, [-1, 1, -1, -5, -1, -1]), at(1.0, [0, -1, -1, -1, -1, -1])];
    let places = vec![[s(7.0), s(8.0)], [s(9.0), s(8.0)]];
    let pasted = paste(&copy, &places, 10, 12).unwrap();
    assert_eq!(pasted[0].pos, places[0]);
    assert_eq!(pasted[0].links, [-1, 11, -1, -5, -1, -1]);
    assert_eq!(pasted[1].links, [10, -1, -1, -1, -1, -1]);
    assert_eq!(pasted[1].inv_mass, copy[1].inv_mass);
    assert_eq!(paste(&copy, &places, 11, 12), None);
    assert_eq!(paste(&copy, &places, u32::MAX, 12), None);
    assert!(is_shiftable(&copy, 10));
    assert!(!is_shiftable(&vec![at(0.0, [i32::MAX, -1, -1, -1, -1, -1])], 1));
}

#[test]
fn backends_are_tried_in_order() {
    let mut search = Search::begin();
    for _ in 0..3 {
        assert_eq!(search.mode(), None);
        search = search.advance(false);
    }
    assert_eq!(search, Search::Trying(3));
    assert_eq!(search.advance(true).mode(), Some(ComputeMode::Cpu));
    assert_eq!(search.advance(false), Search::Failed);
    assert_eq!(Search::Failed.mode(), None);
    assert_eq!(Search::Trying(1).advance(true).mode(), Some(ComputeMode::Gpu));
    assert_eq!(Search::Found(2).advance(false), Search::Found(2));
}

#[test]
fn formats_with_srgb_go_first() {
    assert_eq!(pick_format(&vec![false, true, true]), 1);
    assert_eq!(pick_format(&vec![false, false]), 0);
}

#[test]
fn groups_cover_all_particles() {
    assert_eq!(groups(0), None);
    assert_eq!(groups(1), Some(Groups { wide: 1, high: 1 }));
    assert_eq!(groups(64), Some(Groups { wide: 1, high: 1 }));
    assert_eq!(groups(65), Some(Groups { wide: 2, high: 1 }));
    assert_eq!(groups(64_001), Some(Groups { wide: 1000, high: 2 }));
    assert_eq!(groups(25_000_000), Some(Groups { wide: 1000, high: 391 }));
    assert_eq!(grid_groups(), 16_384);
}

#[test]
fn a_paused_device_only_runs_tools() {
    let one = Groups { wide: 1, high: 1 };
    assert_eq!(pass_plan(false, 0, 5, 32), PassPlan::Steps { times: 32, groups: one });
    assert_eq!(pass_plan(true, 5, 5, 32), PassPlan::ToolOnly { groups: one });
    assert_eq!(pass_plan(true, 0, 5, 32), PassPlan::Nothing);
    assert_eq!(pass_plan(false, 5, 0, 32), PassPlan::Nothing);
    assert_eq!(drawn_count(0), 1);
    assert_eq!(drawn_count(9), 9);
}

#[test]
fn the_list_catches_up_with_the_device() {
    let first = at(1.0, [NO_LINK; 6]);
    let mut held = vec![first];
    assert_eq!(catch_up(&mut held, 1, 1000), None);
    assert_eq!(catch_up(&mut held, 3, 128), Some(ByteRange { offset: 64, size: 128 }));
    assert_eq!(held, vec![first, blank(), blank()]);
    assert_eq!(blank().pos, [s(10_000.0), s(10_000.0)]);
    assert_eq!(catch_up(&mut held, 6, 128), None);
    assert_eq!(held.len(), 6);
    adopt(&mut held, 4, &vec![first, first]);
    assert_eq!(held, vec![first, blank(), blank(), blank(), first, first]);
    assert_eq!(byte_range(2, 5), ByteRange { offset: 128, size: 192 });
}
