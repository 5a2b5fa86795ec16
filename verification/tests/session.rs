use particle_sandbox::capacity::{
    count_label, memory_label, memory_size, particle_limit, preset, ComputeMode, CountLabel, MemoryLabel,
    Session, Splash, PRESETS,
};
use particle_sandbox::archive::{decode, encode};
use particle_sandbox::area::Area;
use particle_sandbox::frame::{
    sim_params, time_scale, Cursors, FrameNumbers, ModifierConfig, Switches,
};
use particle_sandbox::input::{
    wheel_target, FrameTool, Interaction, LeftClickMode, Modifiers, PanAction, Stroke, WheelTarget,
};
use particle_sandbox::panels::Panels;
use particle_sandbox::single::Single;
use particle_sandbox::source::{SourceSettings, WorldSource, WorldSourceType, WorldSources};
use particle_sandbox::spawn::{blank, node_grav_scale, node_inv_mass, SpawnNodeMode};
use particle_sandbox::tools::{apply_tool, ToolReading};

fn s(x: f32) -> Single {
    Single::from_bits(x.to_bits())
}

fn p(x: f32, y: f32) -> [Single; 2] {
    [s(x), s(y)]
}

const NO_KEYS: Modifiers = Modifiers { shift: false, ctrl: false, alt: false };
const SHIFT: Modifiers = Modifiers { shift: true, ctrl: false, alt: false };

fn with(mode: LeftClickMode) -> Interaction {
    Interaction { mode, ..Interaction::new() }
}

fn settings(kind: u32) -> SourceSettings {
    SourceSettings {
        kind,
        radius: s(5.0),
        mat: 2,
        node_mode: SpawnNodeMode::SemiFixed,
        rate: s(60.0),
        speed: s(0.5),
        angle: s(90.0),
        force: s(0.001),
    }
}

#[test]
fn the_limit_is_held_by_buffer_and_mode() {
    assert_eq!(particle_limit(u32::MAX, ComputeMode::Gpu), 25_000_000);
    assert_eq!(particle_limit(128 * 1024 * 1024, ComputeMode::Gpu), 2_097_152);
    assert_eq!(particle_limit(128 * 1024 * 1024, ComputeMode::Cpu), 65_536);
    assert_eq!(particle_limit(640, ComputeMode::Cpu), 10);
    assert_eq!(particle_limit(63, ComputeMode::Gpu), 0);
}

#[test]
fn counts_and_memory_have_units() {
    assert_eq!(count_label(999), CountLabel::Ones(999));
    assert_eq!(count_label(65_536), CountLabel::Thousands(65));
    assert_eq!(count_label(25_000_000), CountLabel::Millions(25));
    let mega = 1024 * 1024;
    assert_eq!(memory_label(0, 128 * mega), MemoryLabel::Buffer(128));
    assert_eq!(memory_label(512 * mega, 0), MemoryLabel::Megabytes(512));
    assert_eq!(memory_label(1023 * mega + 1, 0), MemoryLabel::Megabytes(1023));
    assert_eq!(memory_label(8 * 1024 * mega, 0), MemoryLabel::Gigabytes(8));
}

#[test]
fn a_capacity_is_chosen_once() {
    let counts: Vec<u32> = (0..PRESETS).map(|i| preset(i).count).collect();
    assert_eq!(
        counts,
        vec![1_000, 4_000, 32_000, 128_000, 256_000, 512_000, 1_000_000, 2_000_000, 4_000_000]
    );
    assert_eq!(preset(8).side, s(60.0));
    assert_eq!(preset(2).color, [0, 220, 220]);
    assert_eq!(preset(2).shown_color(40_000, true), [30, 250, 250]);
    assert_eq!(preset(3).shown_color(200_000, true), [90, 150, 255]);
    assert_eq!(preset(2).shown_color(31_999, true), [50, 50, 50]);
    assert_eq!(preset(2).shown_color(32_000, false), [0, 220, 220]);

    let mut session = Session::new(65_536);
    assert_eq!(session.capacity, 65_536);
    assert!(!session.fade(s(9.0), s(1.0)));
    assert!(!session.pick(&preset(3)));
    assert!(session.pick(&preset(2)));
    assert_eq!(session.capacity, 32_000);
    assert!(!session.pick(&preset(0)));
    assert!(!session.fade(s(0.5), s(1.0)));
    assert!(session.splash == Splash::Fading);
    assert!(session.fade(s(1.0), s(1.0)));
    assert!(session.splash == Splash::Gone);
    assert_eq!(session.capacity, 32_000);
}

#[test]
fn tabs_fall_back_to_their_first_tool() {
    let mut i = with(LeftClickMode::ModifyArea);
    i.choose_category(0);
    assert_eq!(i.mode, LeftClickMode::ModifyArea);
    i.choose_category(1);
    assert_eq!((i.category, i.mode), (1, LeftClickMode::Spawn));
    i.choose_category(2);
    assert_eq!(i.mode, LeftClickMode::PlaceSource);
    i.mode = LeftClickMode::PasteClick;
    i.choose_category(2);
    assert_eq!(i.mode, LeftClickMode::PasteClick);
    i.choose_category(0);
    assert_eq!(i.mode, LeftClickMode::DragForce);
}

#[test]
fn selections_run_from_press_to_release() {
    let mut i = with(LeftClickMode::RectSpawn);
    assert!(!i.left_button(true, p(1.0, 2.0), false));
    assert_eq!(i.rect_start, Some(p(1.0, 2.0)));
    i.left_button(true, p(9.0, 9.0), false);
    assert_eq!(i.rect_start, Some(p(1.0, 2.0)));
    i.left_button(false, p(3.0, -4.0), true);
    assert_eq!(i.spawn_rect, Some(Stroke { from: p(1.0, 2.0), to: p(3.0, -4.0) }));
    assert_eq!(i.rect_start, None);

    let mut i = with(LeftClickMode::CopyRect);
    i.left_button(true, p(1.0, 2.0), false);
    i.left_button(false, p(3.0, -4.0), false);
    assert_eq!(
        i.copy_box,
        Some(Area { min_x: s(1.0), max_x: s(3.0), min_y: s(-4.0), max_y: s(2.0) })
    );

    let mut i = with(LeftClickMode::LineSpawn);
    i.left_button(true, p(1.0, 2.0), true);
    assert_eq!(i.rect_start, None);
    i.left_button(false, p(3.0, -4.0), false);
    assert_eq!(i.spawn_line, None);
    i.left_button(true, p(1.0, 2.0), false);
    i.right_button(true, None);
    i.left_button(false, p(3.0, -4.0), false);
    assert_eq!(i.spawn_line, None);
}

#[test]
fn clicks_wait_to_be_carried_out() {
    let mut i = with(LeftClickMode::Spawn);
    i.left_button(true, p(0.0, 0.0), true);
    assert!(!i.clicked_spawn);
    i.left_button(false, p(0.0, 0.0), false);
    i.left_button(true, p(0.0, 0.0), false);
    assert!(i.clicked_spawn);
    let mut i = with(LeftClickMode::PasteClick);
    i.left_button(true, p(1.0, 1.0), true);
    assert_eq!(i.paste_pos, Some(p(1.0, 1.0)));
    i.toggle_pause();
    assert!(i.paused);
    i.toggle_pause();
    assert!(!i.paused);
    i.scene_loaded();
    i.scene_loaded();
    assert!(i.paused);
    i.blueprint_loaded();
    assert_eq!(i.mode, LeftClickMode::PasteClick);
}

#[test]
fn grabs_start_hold_and_release() {
    let tools = [
        (LeftClickMode::DragPosition, [2, 3, 4]),
        (LeftClickMode::DragForce, [7, 8, 9]),
        (LeftClickMode::PointDrag, [10, 11, 12]),
    ];
    for (mode, phases) in tools {
        let mut i = with(mode);
        let mut seen = Vec::new();
        for pressed in [true, true, false, false] {
            i.left_button(pressed, p(0.0, 0.0), false);
            let tool = i.choose_tool(&NO_KEYS);
            seen.push(tool.mode);
            i.end_frame(tool.mode);
        }
        assert_eq!(seen, vec![phases[0], phases[1], phases[2], 0]);
        i.left_button(true, p(0.0, 0.0), false);
        assert_eq!(i.choose_tool(&Modifiers { ctrl: true, ..NO_KEYS }).mode, 0);
        assert_eq!(i.choose_tool(&Modifiers { alt: true, ..NO_KEYS }).mode, 0);
    }
}

#[test]
fn shift_erases_instead_of_spawning() {
    let mut i = with(LeftClickMode::Spawn);
    i.left_button(true, p(0.0, 0.0), false);
    assert!(i.clicked_spawn);
    assert_eq!(i.choose_tool(&SHIFT).mode, 5);
    assert!(!i.clicked_spawn);

    let mut i = with(LeftClickMode::RectSpawn);
    i.left_button(true, p(2.0, 2.0), false);
    i.left_button(false, p(1.0, 3.0), false);
    let tool = i.choose_tool(&SHIFT);
    assert_eq!(tool.mode, 6);
    assert_eq!(tool.area, Area::between(p(1.0, 2.0), p(2.0, 3.0)));
    assert_eq!(i.spawn_rect, None);
    assert_eq!(i.choose_tool(&SHIFT), FrameTool { mode: 0, area: Area::at_origin() });
}

#[test]
fn erasing_is_followed_by_a_clean_up() {
    let mut i = with(LeftClickMode::Spawn);
    i.end_frame(5);
    assert!(!i.take_gc());
    i.end_frame(0);
    assert!(i.take_gc());
    assert!(!i.take_gc());
    i.end_frame(0);
    assert!(!i.take_gc());

    i.clear_movable = true;
    assert_eq!(i.choose_tool(&SHIFT).mode, 14);
    assert!(!i.clear_movable);
    i.end_frame(14);
    assert!(i.take_gc());
    i.end_frame(0);
    assert!(i.take_gc());
}

#[test]
fn the_modifying_brush_goes_first() {
    let mut i = with(LeftClickMode::ModifyArea);
    i.left_button(true, p(0.0, 0.0), false);
    assert_eq!(i.choose_tool(&SHIFT).mode, 13);
    i.clear_movable = true;
    assert_eq!(i.choose_tool(&NO_KEYS).mode, 13);
    assert!(i.pending_gc && !i.clear_movable);
}

#[test]
fn the_wheel_and_the_right_button_have_their_targets() {
    assert_eq!(wheel_target(s(0.001), false), WheelTarget::Nothing);
    assert_eq!(wheel_target(s(-1.0), false), WheelTarget::Zoom);
    assert_eq!(wheel_target(s(-1.0), true), WheelTarget::Radius);
    let mut i = Interaction::new();
    assert_eq!(i.pan_action(false, false), PanAction::Forget);
    i.right_button(true, Some(3));
    assert_eq!(i.selected_source, None);
    assert_eq!(i.pan_action(false, false), PanAction::Pan);
    assert_eq!(i.pan_action(false, true), PanAction::Keep);
    assert_eq!(i.pan_action(true, false), PanAction::Keep);
}

#[test]
fn sources_are_placed_held_and_removed() {
    let mut i = with(LeftClickMode::PlaceSource);
    let mut sources = WorldSources::new();
    assert!(i.left_button(true, p(1.0, 1.0), false));
    i.grab_or_place(&mut sources, &vec![], p(1.0, 1.0), &settings(1));
    assert_eq!(i.holding_source, Some(1));
    assert_eq!(i.selected_source, Some(1));
    assert_eq!(sources.next_id, 2);
    i.carry_source(&mut sources, p(4.0, 4.0));
    assert_eq!(sources.list[0].pos, p(4.0, 4.0));
    i.left_button(false, p(4.0, 4.0), false);
    i.carry_source(&mut sources, p(5.0, 5.0));
    assert_eq!(i.holding_source, None);
    assert_eq!(sources.list[0].pos, p(4.0, 4.0));

    sources.place(p(0.0, 0.0), &settings(2));
    sources.place(p(0.0, 0.0), &settings(0));
    let ids: Vec<u32> = sources.list.iter().map(|x| x.id).collect();
    assert_eq!(ids, vec![1, 2, 3]);
    assert_eq!(sources.hit(&vec![s(1.0), s(0.99), s(0.1)]), Some(2));
    assert_eq!(sources.hit(&vec![s(1.0), s(2.0), s(f32::NAN)]), None);
    i.left_button(true, p(0.0, 0.0), false);
    i.grab_or_place(&mut sources, &vec![s(1.0), s(0.5), s(0.0)], p(0.0, 0.0), &settings(1));
    assert_eq!(i.holding_source, Some(2));
    assert_eq!(i.selected_source, Some(1));
    i.right_button(true, None);
    assert_eq!(i.selected_source, None);
    // A source that is touched can be held though no other could be placed.
    let mut full = WorldSources { list: sources.list.clone(), next_id: u32::MAX };
    i.grab_or_place(&mut full, &vec![s(0.0), s(0.5), s(0.0)], p(0.0, 0.0), &settings(1));
    assert_eq!((i.holding_source, full.list.len()), (Some(1), 3));
    i.grab_or_place(&mut sources, &vec![s(1.0), s(0.5), s(0.0)], p(0.0, 0.0), &settings(1));

    assert_eq!(sources.find(3), Some(2));
    sources.remove(2);
    assert_eq!(sources.list.iter().map(|x| x.id).collect::<Vec<_>>(), vec![1, 3]);
    assert_eq!(sources.find(2), None);
    let id = sources.place(p(0.0, 0.0), &settings(1));
    assert_eq!(id, 4);
    sources.clear();
    assert_eq!((sources.list.len(), sources.next_id), (0, 5));
}

#[test]
fn sources_do_what_their_settings_say() {
    assert_eq!(
        settings(0).source_type(),
        WorldSourceType::Light { color: [s(1.0), s(1.0), s(0.5)], intensity: s(1.0) }
    );
    assert_eq!(
        settings(1).source_type(),
        WorldSourceType::Particle {
            mat: 2,
            node_mode: SpawnNodeMode::SemiFixed,
            rate_per_sec: s(60.0),
            delay_accum: s(0.0),
            angle: s(90.0),
            speed: s(0.5),
        }
    );
    assert_eq!(settings(2).source_type(), WorldSourceType::Gravity { force: s(0.001) });
    assert_eq!(settings(7).source_type(), WorldSourceType::Gravity { force: s(0.001) });
}

fn gravity(id: u32) -> WorldSource {
    WorldSource {
        id,
        pos: p(id as f32, -1.0),
        radius: s(2.0),
        source_type: WorldSourceType::Gravity { force: s(id as f32 * 10.0) },
    }
}

#[test]
fn files_bring_their_own_sources() {
    let mut sources = WorldSources::new();
    sources.load(vec![gravity(7), gravity(3)]);
    assert_eq!(sources.next_id, 8);
    assert!(WorldSources::can_load(&vec![gravity(u32::MAX - 1)]));
    assert!(!WorldSources::can_load(&vec![gravity(u32::MAX)]));
    sources.restore(false, None);
    assert_eq!(sources.list.len(), 2);
    sources.restore(true, None);
    assert_eq!((sources.list.len(), sources.next_id), (0, 8));
    sources.restore(false, Some(vec![]));
    assert_eq!(sources.next_id, 1);
}

#[test]
fn eight_sources_attract_at_most() {
    let mut sources = WorldSources::new();
    sources.place(p(0.0, 0.0), &settings(1));
    for id in 2..12 {
        sources.list.push(gravity(id));
    }
    let (cells, count) = sources.pack_gravity();
    assert_eq!(count, 8);
    assert_eq!(&cells[0..4], &[s(2.0), s(-1.0), s(2.0), s(20.0)]);
    assert_eq!(&cells[28..32], &[s(9.0), s(-1.0), s(2.0), s(90.0)]);
    sources.load(vec![gravity(5)]);
    let (cells, count) = sources.pack_gravity();
    assert_eq!(count, 1);
    assert_eq!(cells[3], s(50.0));
    assert!(cells[4..].iter().all(|&c| c == s(0.0)));
}

#[test]
fn eased_cursors_follow() {
    let zero = p(0.0, 0.0);
    let mut c = Cursors {
        spring: zero, spring_last: zero, point: zero, point_last: zero, world_last: p(1.0, 1.0),
    };
    let m = c.advance(0, p(2.0, 2.0), p(8.0, 8.0), p(9.0, 9.0));
    assert_eq!((m.from, m.to, m.at), (p(1.0, 1.0), p(2.0, 2.0), p(2.0, 2.0)));
    c.advance(7, p(3.0, 3.0), p(8.0, 8.0), p(9.0, 9.0));
    assert_eq!((c.spring, c.spring_last), (p(3.0, 3.0), p(3.0, 3.0)));
    let m = c.advance(8, p(5.0, 5.0), p(4.0, 4.0), p(9.0, 9.0));
    assert_eq!((m.from, m.to, m.at), (p(3.0, 3.0), p(4.0, 4.0), p(5.0, 5.0)));
    c.advance(10, p(6.0, 6.0), p(8.0, 8.0), p(9.0, 9.0));
    let m = c.advance(11, p(7.0, 7.0), p(8.0, 8.0), p(6.5, 6.5));
    assert_eq!((m.from, m.to, m.at), (p(6.0, 6.0), p(6.0, 6.0), p(6.5, 6.5)));
    let m = c.advance(11, p(7.0, 7.0), p(8.0, 8.0), p(6.75, 6.75));
    assert_eq!((m.from, m.to, m.at), (p(6.0, 6.0), p(6.5, 6.5), p(6.75, 6.75)));
    assert_eq!(c.world_last, p(7.0, 7.0));
}

#[test]
fn the_step_is_told_what_the_frame_says() {
    let cfg = ModifierConfig {
        modify_mat: true,
        target_mat: 4,
        modify_node: true,
        target_node: SpawnNodeMode::SemiFixed,
        target_damping: s(1000.0),
        modify_temp: false,
        target_temp: s(20.0),
    };
    let n = FrameNumbers {
        dt: s(0.25),
        grab_radius: s(0.5),
        scene_scale: s(8.0),
        damping_factor: s(0.9),
        gravity: s(0.0001),
        grid_offset: p(0.1, 0.2),
        cursor_vel: p(0.3, 0.4),
        charge: s(1000.0),
        brush_per_mass: s(0.5),
    };
    let on = Switches { dynamic_link: true, surface_tension: false };
    let mut i = with(LeftClickMode::ModifyArea);
    i.left_button(true, p(0.0, 0.0), false);
    let keys = Modifiers { shift: false, ctrl: true, alt: true };
    let tool = i.choose_tool(&keys);
    let sources = WorldSources::new();
    let r = sim_params(&i, &keys, &tool, p(1.0, 2.0), &n, &on, &cfg, &sources, &vec![], 77);
    assert_eq!((r.drag_mode, r.mouse_active), (13, s(1.0)));
    assert_eq!((r.mouse_x, r.mouse_y), (s(1.0), s(2.0)));
    assert_eq!((r.force_reconnect, r.apply_charge), (s(1.0), s(1000.0)));
    assert_eq!((r.mod_mat, r.mod_node_inv_mass, r.mod_node_grav), (4, s(0.5), s(-1000.0)));
    assert!(r.mod_temp.is_nan());
    assert_eq!((r.allow_dynamic_link, r.allow_surface_tension, r.is_paused_flag), (1, 0, 0));
    assert_eq!((r.active_count, r.num_gravity_sources), (77, 0));
    assert_eq!((r.grid_offset_x, r.mouse_vy), (s(0.1), s(0.4)));
    let idle = with(LeftClickMode::Spawn);
    let off = FrameTool { mode: 0, area: Area::between(p(1.0, 2.0), p(3.0, 4.0)) };
    let r = sim_params(&idle, &keys, &off, p(1.0, 2.0), &n, &on, &cfg, &sources, &vec![], 77);
    assert_eq!((r.mouse_active, r.mod_mat), (s(0.0), 0xffff_ffff));
    assert!(r.mod_node_inv_mass.is_nan() && r.mod_temp.is_nan());
    assert_eq!((r.force_reconnect, r.apply_charge), (s(0.0), s(-1.0)));
    assert_eq!((r.rect_min_x, r.rect_max_x, r.rect_min_y, r.rect_max_y), (s(1.0), s(3.0), s(2.0), s(4.0)));
}

#[test]
fn time_scales_are_as_listed() {
    let want = [0.01f32, 0.05, 0.1, 0.2, 0.4, 0.5, 1.0, 2.0, 4.0];
    for (i, w) in want.iter().enumerate() {
        assert_eq!(time_scale(i), s(*w));
    }
    assert_eq!(time_scale(100), s(4.0));
}

#[test]
fn panels_give_way_to_each_other() {
    let mut panels = Panels::new();
    panels.open_load();
    panels.open_library();
    assert!(panels.library && !panels.load && !panels.save);
    panels.ask_save();
    assert!(!panels.library && !panels.save);
    assert!(panels.take_snapshot());
    assert!(!panels.take_snapshot());
    panels.open_save();
    assert!(panels.save);
    panels.open_load();
    assert!(panels.load && !panels.save);
    panels.close_load();
    panels.close_save();
    panels.close_library();
    assert_eq!(panels, Panels::new());
}

#[test]
fn growth_needs_its_tool_and_a_free_view() {
    let held = Interaction { left_pressed: true, ..with(LeftClickMode::GrowthSpawn) };
    assert!(held.is_growing(false));
    assert!(!held.is_growing(true));
    assert!(!with(LeftClickMode::GrowthSpawn).is_growing(false));
    let spawning = Interaction { left_pressed: true, ..with(LeftClickMode::Spawn) };
    assert!(!spawning.is_growing(false));
}

#[test]
fn the_brush_overwrites_what_is_ticked() {
    let n = FrameNumbers {
        dt: s(0.25),
        grab_radius: s(0.5),
        scene_scale: s(8.0),
        damping_factor: s(0.9),
        gravity: s(0.0001),
        grid_offset: p(0.0, 0.0),
        cursor_vel: p(0.0, 0.0),
        charge: s(1000.0),
        brush_per_mass: s(-2.0),
    };
    let on = Switches { dynamic_link: true, surface_tension: true };
    let mut i = with(LeftClickMode::ModifyArea);
    i.left_button(true, p(0.0, 0.0), false);
    let tool = i.choose_tool(&NO_KEYS);
    let under = ToolReading {
        cursor_dist: s(0.0),
        carried_vel: p(0.0, 0.0),
        ring_vel: p(0.0, 0.0),
        ring_pos: p(0.0, 0.0),
    };
    let touched = blank();
    let sources = WorldSources::new();
    let brushed = |cfg: &ModifierConfig| {
        let r = sim_params(&i, &NO_KEYS, &tool, p(0.0, 0.0), &n, &on, cfg, &sources, &vec![], 1);
        apply_tool(&touched, &r, &under).0
    };
    let off = ModifierConfig {
        modify_mat: false,
        target_mat: 4,
        modify_node: false,
        target_node: SpawnNodeMode::Normal,
        target_damping: s(30.0),
        modify_temp: false,
        target_temp: s(-10.0),
    };
    assert_eq!(brushed(&off), touched);
    assert_eq!(brushed(&ModifierConfig { modify_temp: true, ..off }).temperature, s(-10.0));
    assert_eq!(brushed(&ModifierConfig { modify_mat: true, ..off }).mat_type, 4);
    for target_node in [
        SpawnNodeMode::Normal,
        SpawnNodeMode::ZeroGravity,
        SpawnNodeMode::SemiFixed,
        SpawnNodeMode::Fixed,
    ] {
        let q = brushed(&ModifierConfig { modify_node: true, target_node, ..off });
        assert_eq!(q.inv_mass, node_inv_mass(target_node, s(-2.0)));
        assert_eq!(q.grav_scale, node_grav_scale(target_node, s(30.0)));
        assert_eq!((q.temperature, q.mat_type), (touched.temperature, touched.mat_type));
    }
}

#[test]
fn replies_name_a_number_of_bytes() {
    let size = |text: &str| memory_size(&text.chars().collect());
    assert_eq!(size("8589934592\r\n"), 8_589_934_592);
    assert_eq!(size("\u{3000} +17\u{a0}"), 17);
    assert_eq!(size("18446744073709551615"), u64::MAX);
    assert_eq!(size("18446744073709551616"), 0);
    for text in ["", "  ", "+", "-1", "1 2", "0x10", "12MB"] {
        assert_eq!(size(text), 0);
    }
}

#[test]
fn a_saved_scene_comes_back() {
    let particles = vec![blank(), blank()];
    let saved = vec![gravity(7), gravity(3)];
    // Each source as its number.
    let text: Vec<u8> = saved.iter().map(|x| x.id as u8).collect();
    let (loaded, rest) = decode(&encode(&particles, &text)).unwrap();
    assert_eq!(loaded, particles);
    let list: Vec<WorldSource> = rest.iter().map(|&id| gravity(id as u32)).collect();
    let mut sources = WorldSources::new();
    sources.place(p(1.0, 1.0), &settings(0));
    sources.restore(rest.is_empty(), Some(list));
    assert_eq!((sources.list, sources.next_id), (saved, 8));
    let mut i = Interaction::new();
    i.scene_loaded();
    assert!(i.paused);
}
