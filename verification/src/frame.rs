//! The parameters of a frame: where the cursor counts as being, and what the step is told.
use vstd::prelude::*;
use crate::area::Area;
use crate::input::{FrameTool, Interaction, LeftClickMode, Modifiers};
use crate::material::{
    material_props, material_table, table_rows, MaterialDef, MaterialPropsWGSL,
};
use crate::params::SimParams;
use crate::particle::Particle;
use crate::single::{num, Single, MINUS_ONE, ONE};
use crate::source::{attracting, packs, WorldSources, MAX_GRAVITY_SOURCES};
use crate::spawn::{
    node_grav_scale, node_inv_mass, spawned_grav_scale, spawned_inv_mass, SpawnNodeMode,
};
use crate::tools::{
    modified, ERASE_BRUSH, GRAB_HOLD, KEEP_MATERIAL, MODIFY, NO_REQUEST, POINT_HOLD, POINT_START,
    SPRING_HOLD, SPRING_START,
};

verus! {

/// How many time scales there are.
pub const TIME_SCALES: usize = 9;

/// The time scales: 0.01, 0.05, 0.1, 0.2, 0.4, 0.5, 1, 2 and 4.
pub open spec fn time_scales() -> Seq<u32> {
    seq![
        0x3c23_d70au32,
        0x3d4c_cccdu32,
        0x3dcc_cccdu32,
        0x3e4c_cccdu32,
        0x3ecc_cccdu32,
        0x3f00_0000u32,
        0x3f80_0000u32,
        0x4000_0000u32,
        0x4080_0000u32,
    ]
}

/// A time scale; a number beyond the last one stands for the last.
pub fn time_scale(i: usize) -> (r: Single)
    ensures
        r == num(
            time_scales()[if i < TIME_SCALES {
                i as int
            } else {
                TIME_SCALES - 1
            }],
        ),
{
    let bits: u32 = if i == 0 {
        0x3c23_d70a
    } else if i == 1 {
        0x3d4c_cccd
    } else if i == 2 {
        0x3dcc_cccd
    } else if i == 3 {
        0x3e4c_cccd
    } else if i == 4 {
        0x3ecc_cccd
    } else if i == 5 {
        0x3f00_0000
    } else if i == 6 {
        0x3f80_0000
    } else if i == 7 {
        0x4000_0000
    } else {
        0x4080_0000
    };
    Single::from_bits(bits)
}

/// Tool number of a plain pull.
pub const PULL: u32 = 1;

/// The cursor as the tools see it. The spring and the point tool have a cursor of their own that
/// eases towards the real one.
#[derive(Clone, Copy, Debug, PartialEq, Eq)]
pub struct Cursors {
    pub spring: [Single; 2],
    pub spring_last: [Single; 2],
    pub point: [Single; 2],
    pub point_last: [Single; 2],
    /// The real cursor of the frame before.
    pub world_last: [Single; 2],
}

/// A movement of the cursor, and the point at which the tools act.
#[derive(Clone, Copy, Debug, PartialEq, Eq)]
pub struct CursorMotion {
    pub from: [Single; 2],
    pub to: [Single; 2],
    pub at: [Single; 2],
}

/// The cursors after a frame with the given tool. `eased_spring` and `eased_point` are their next
/// points on the way to the real cursor.
pub open spec fn cursors_after(
    c: Cursors,
    tool: u32,
    cursor: [Single; 2],
    eased_spring: [Single; 2],
    eased_point: [Single; 2],
) -> Cursors {
    Cursors {
        spring: if tool == SPRING_START {
            cursor
        } else if tool == SPRING_HOLD {
            eased_spring
        } else {
            c.spring
        },
        spring_last: if tool == SPRING_START {
            cursor
        } else if tool == SPRING_HOLD {
            c.spring
        } else {
            c.spring_last
        },
        point: if tool == POINT_START {
            cursor
        } else if tool == POINT_HOLD {
            eased_point
        } else {
            c.point
        },
        point_last: if tool == POINT_START {
            cursor
        } else if tool == POINT_HOLD {
            c.point
        } else {
            c.point_last
        },
        world_last: cursor,
    }
}

/// The movement of a frame. The point tool moves by what it eased in the frame before.
pub open spec fn cursor_motion(
    c: Cursors,
    tool: u32,
    cursor: [Single; 2],
    eased_spring: [Single; 2],
    eased_point: [Single; 2],
) -> CursorMotion {
    CursorMotion {
        from: if tool == SPRING_HOLD {
            c.spring
        } else if tool == POINT_HOLD {
            c.point_last
        } else {
            c.world_last
        },
        to: if tool == SPRING_HOLD {
            eased_spring
        } else if tool == POINT_HOLD {
            c.point
        } else {
            cursor
        },
        at: if tool == POINT_HOLD {
            eased_point
        } else {
            cursor
        },
    }
}

impl Cursors {
    /// Moves the cursors by a frame.
    pub fn advance(
        &mut self,
        tool: u32,
        cursor: [Single; 2],
        eased_spring: [Single; 2],
        eased_point: [Single; 2],
    ) -> (r: CursorMotion)
        ensures
            *final(self) == cursors_after(*old(self), tool, cursor, eased_spring, eased_point),
            r == cursor_motion(*old(self), tool, cursor, eased_spring, eased_point),
    {
        if tool == SPRING_START {
            self.spring = cursor;
            self.spring_last = cursor;
        } else if tool == SPRING_HOLD {
            self.spring_last = self.spring;
            self.spring = eased_spring;
        }
        let mut r: CursorMotion = if tool == SPRING_HOLD {
            CursorMotion { from: self.spring_last, to: self.spring, at: cursor }
        } else if tool == POINT_HOLD {
            CursorMotion { from: self.point_last, to: self.point, at: cursor }
        } else {
            CursorMotion { from: self.world_last, to: cursor, at: cursor }
        };
        if tool == POINT_START {
            self.point = cursor;
            self.point_last = cursor;
        } else if tool == POINT_HOLD {
            self.point_last = self.point;
            self.point = eased_point;
            r.at = self.point;
        }
        self.world_last = cursor;
        r
    }
}

/// What the modifying brush is set to.
#[derive(Clone, Copy, Debug, PartialEq, Eq)]
pub struct ModifierConfig {
    pub modify_mat: bool,
    pub target_mat: u32,
    pub modify_node: bool,
    pub target_node: SpawnNodeMode,
    pub target_damping: Single,
    pub modify_temp: bool,
    pub target_temp: Single,
}

/// The inverse mass that the brush asks for, where `per_mass` is that of the target material.
pub open spec fn brush_inv_mass(cfg: ModifierConfig, per_mass: Single) -> Single {
    match cfg.target_node {
        SpawnNodeMode::Normal => per_mass,
        SpawnNodeMode::ZeroGravity => per_mass,
        SpawnNodeMode::SemiFixed => per_mass,
        SpawnNodeMode::Fixed => num(0),
    }
}

/// The gravity factor that the brush asks for: for a floating particle, its resistance budget with
/// the sign turned round.
pub open spec fn brush_grav(cfg: ModifierConfig) -> Single {
    match cfg.target_node {
        SpawnNodeMode::Normal => num(ONE),
        SpawnNodeMode::ZeroGravity => num(0),
        SpawnNodeMode::SemiFixed => cfg.target_damping.opposite(),
        SpawnNodeMode::Fixed => num(ONE),
    }
}

/// The numbers that a frame computes and passes on as they are.
#[derive(Clone, Copy, Debug, PartialEq, Eq)]
pub struct FrameNumbers {
    pub dt: Single,
    pub grab_radius: Single,
    pub scene_scale: Single,
    pub damping_factor: Single,
    pub gravity: Single,
    pub grid_offset: [Single; 2],
    pub cursor_vel: [Single; 2],
    /// The charge that the charge tool applies.
    pub charge: Single,
    /// The inverse mass of the brush's target material.
    pub brush_per_mass: Single,
}

/// What can be switched on and off.
#[derive(Clone, Copy, Debug, PartialEq, Eq)]
pub struct Switches {
    pub dynamic_link: bool,
    pub surface_tension: bool,
}

/// The cursor counts as active with these tools.
pub open spec fn cursor_active(tool: u32) -> bool {
    tool == PULL || tool == GRAB_HOLD || tool == ERASE_BRUSH || tool == SPRING_HOLD || tool
        == POINT_HOLD || tool == MODIFY
}

/// The parameters say what the frame's state and numbers say.
pub open spec fn params_tell(
    p: SimParams,
    s: Interaction,
    keys: Modifiers,
    tool: FrameTool,
    at: [Single; 2],
    n: FrameNumbers,
    on: Switches,
    cfg: ModifierConfig,
    active: u32,
) -> bool {
    let brush = s.mode == LeftClickMode::ModifyArea;
    &&& p.dt == n.dt
    &&& p.mouse_active == if cursor_active(tool.mode) {
        num(ONE)
    } else {
        num(0)
    }
    &&& p.mouse_x == at@[0]
    &&& p.mouse_y == at@[1]
    &&& p.grab_radius == n.grab_radius
    &&& p.scene_scale == n.scene_scale
    &&& p.damping_factor == n.damping_factor
    &&& p.gravity == n.gravity
    &&& p.grid_offset_x == n.grid_offset@[0]
    &&& p.grid_offset_y == n.grid_offset@[1]
    &&& p.force_reconnect == if s.left_pressed && keys.ctrl {
        num(ONE)
    } else {
        num(0)
    }
    &&& p.apply_charge == if s.left_pressed && keys.alt {
        n.charge
    } else {
        num(MINUS_ONE)
    }
    &&& p.active_count == active
    &&& p.drag_mode == tool.mode
    &&& p.mouse_vx == n.cursor_vel@[0]
    &&& p.mouse_vy == n.cursor_vel@[1]
    &&& p.rect_min_x == tool.area.min_x
    &&& p.rect_max_x == tool.area.max_x
    &&& p.rect_min_y == tool.area.min_y
    &&& p.rect_max_y == tool.area.max_y
    &&& p.allow_dynamic_link == if on.dynamic_link {
        1u32
    } else {
        0u32
    }
    &&& p.mod_mat == if brush && cfg.modify_mat {
        cfg.target_mat
    } else {
        KEEP_MATERIAL
    }
    &&& p.mod_node_inv_mass == if brush && cfg.modify_node {
        brush_inv_mass(cfg, n.brush_per_mass)
    } else {
        num(NO_REQUEST)
    }
    &&& p.mod_node_grav == if brush && cfg.modify_node {
        brush_grav(cfg)
    } else {
        num(ONE)
    }
    &&& p.mod_temp == if brush && cfg.modify_temp {
        cfg.target_temp
    } else {
        num(NO_REQUEST)
    }
    &&& p.is_paused_flag == if s.paused {
        1u32
    } else {
        0u32
    }
    &&& p.allow_surface_tension == if on.surface_tension {
        1u32
    } else {
        0u32
    }
}

/// A switch as the step reads it.
fn flag(on: bool) -> (r: u32)
    ensures
        r == if on {
            1u32
        } else {
            0u32
        },
{
    if on {
        1
    } else {
        0
    }
}

/// The parameters of a frame in which `tool` acts at the point `at`.
pub fn sim_params(
    s: &Interaction,
    keys: &Modifiers,
    tool: &FrameTool,
    at: [Single; 2],
    n: &FrameNumbers,
    on: &Switches,
    cfg: &ModifierConfig,
    sources: &WorldSources,
    materials: &Vec<MaterialDef>,
    active: u32,
) -> (r: SimParams)
    ensures
        params_tell(r, *s, *keys, *tool, at, *n, *on, *cfg, active),
        table_rows(materials@, r.materials@),
        r.num_gravity_sources == if attracting(
            sources.list@,
            sources.list@.len() as int,
        ).len() < MAX_GRAVITY_SOURCES {
            attracting(sources.list@, sources.list@.len() as int).len() as int
        } else {
            MAX_GRAVITY_SOURCES as int
        },
        packs(
            r.gravity_sources@,
            attracting(sources.list@, sources.list@.len() as int),
            r.num_gravity_sources as int,
        ),
{
    let zero = Single::from_bits(0);
    let one = Single::from_bits(ONE);
    let none = Single::from_bits(MINUS_ONE);
    let keep = Single::from_bits(NO_REQUEST);
    let brush: bool = s.mode == LeftClickMode::ModifyArea;
    let area: Area = tool.area;
    let (gravity_sources, num_gravity_sources) = sources.pack_gravity();
    let mode: u32 = tool.mode;
    let active_cursor: bool = mode == PULL || mode == GRAB_HOLD || mode == ERASE_BRUSH || mode
        == SPRING_HOLD || mode == POINT_HOLD || mode == MODIFY;
    SimParams {
        dt: n.dt,
        mouse_active: if active_cursor {
            one
        } else {
            zero
        },
        mouse_x: at[0],
        mouse_y: at[1],
        grab_radius: n.grab_radius,
        scene_scale: n.scene_scale,
        damping_factor: n.damping_factor,
        gravity: n.gravity,
        grid_offset_x: n.grid_offset[0],
        grid_offset_y: n.grid_offset[1],
        force_reconnect: if s.left_pressed && keys.ctrl {
            one
        } else {
            zero
        },
        apply_charge: if s.left_pressed && keys.alt {
            n.charge
        } else {
            none
        },
        active_count: active,
        drag_mode: mode,
        mouse_vx: n.cursor_vel[0],
        mouse_vy: n.cursor_vel[1],
        rect_min_x: area.min_x,
        rect_min_y: area.min_y,
        rect_max_x: area.max_x,
        rect_max_y: area.max_y,
        allow_dynamic_link: flag(on.dynamic_link),
        mod_mat: if brush && cfg.modify_mat {
            cfg.target_mat
        } else {
            KEEP_MATERIAL
        },
        mod_node_inv_mass: if brush && cfg.modify_node {
            match cfg.target_node {
                SpawnNodeMode::Normal => n.brush_per_mass,
                SpawnNodeMode::ZeroGravity => n.brush_per_mass,
                SpawnNodeMode::SemiFixed => n.brush_per_mass,
                SpawnNodeMode::Fixed => zero,
            }
        } else {
            keep
        },
        mod_node_grav: if brush && cfg.modify_node {
            match cfg.target_node {
                SpawnNodeMode::Normal => one,
                SpawnNodeMode::ZeroGravity => zero,
                SpawnNodeMode::SemiFixed => cfg.target_damping.neg(),
                SpawnNodeMode::Fixed => one,
            }
        } else {
            one
        },
        mod_temp: if brush && cfg.modify_temp {
            cfg.target_temp
        } else {
            keep
        },
        is_paused_flag: flag(s.paused),
        num_gravity_sources,
        allow_surface_tension: flag(on.surface_tension),
        gravity_sources,
        materials: material_table(materials),
    }
}

/// The brush overwrites what is ticked, and nothing else. A target that is no number, and the
/// material that stands for none, cannot be asked for.
pub proof fn law_brush_sets_what_is_ticked(
    p: Particle,
    params: SimParams,
    s: Interaction,
    keys: Modifiers,
    tool: FrameTool,
    at: [Single; 2],
    n: FrameNumbers,
    on: Switches,
    cfg: ModifierConfig,
    active: u32,
)
    requires
        params_tell(params, s, keys, tool, at, n, on, cfg, active),
        s.mode == LeftClickMode::ModifyArea,
    ensures
        !cfg.modify_mat ==> modified(p, params).mat_type == p.mat_type,
        cfg.modify_mat && cfg.target_mat != KEEP_MATERIAL ==> modified(p, params).mat_type == (
        p.mat_type & 0xffff_ff00) | cfg.target_mat,
        !cfg.modify_node ==> modified(p, params).inv_mass == p.inv_mass && modified(
            p,
            params,
        ).grav_scale == p.grav_scale,
        cfg.modify_node && !brush_inv_mass(cfg, n.brush_per_mass).nan() ==> modified(
            p,
            params,
        ).inv_mass == brush_inv_mass(cfg, n.brush_per_mass) && modified(p, params).grav_scale
            == brush_grav(cfg),
        !cfg.modify_temp ==> modified(p, params).temperature == p.temperature,
        cfg.modify_temp && !cfg.target_temp.nan() ==> modified(p, params).temperature
            == cfg.target_temp,
{
}

/// The brush makes of a particle the node that spawning with the same choice makes.
pub proof fn law_brush_makes_spawned_nodes(cfg: ModifierConfig, per_mass: Single)
    ensures
        brush_inv_mass(cfg, per_mass) == spawned_inv_mass(cfg.target_node, per_mass),
        brush_grav(cfg) == spawned_grav_scale(cfg.target_node, cfg.target_damping),
{
}

/// While the spring tool holds, its movement starts where the last one ended: nothing of the way
/// is lost between two frames.
pub proof fn law_spring_movements_join(
    c: Cursors,
    cursor: [Single; 2],
    next_cursor: [Single; 2],
    eased: [Single; 2],
    next_eased: [Single; 2],
    point: [Single; 2],
)
    ensures
        ({
            let held = cursors_after(c, SPRING_HOLD, cursor, eased, point);
            let first = cursor_motion(c, SPRING_HOLD, cursor, eased, point);
            let second = cursor_motion(held, SPRING_HOLD, next_cursor, next_eased, point);
            first.to == second.from
        }),
{
}

/// The point tool moves by what its cursor eased in the frame before, and not at all in the first
/// frame in which it holds.
pub proof fn law_point_moves_a_frame_late(
    c: Cursors,
    cursor: [Single; 2],
    eased: [Single; 2],
    next_eased: [Single; 2],
    spring: [Single; 2],
)
    ensures
        ({
            let started = cursors_after(c, POINT_START, cursor, spring, eased);
            let first = cursor_motion(started, POINT_HOLD, cursor, spring, eased);
            let held = cursors_after(started, POINT_HOLD, cursor, spring, eased);
            let second = cursor_motion(held, POINT_HOLD, cursor, spring, next_eased);
            &&& first.from == first.to
            &&& first.at == eased
            &&& second.from == cursor
            &&& second.to == eased
        }),
{
}

/// The time scales, slowest first: 0.01, 0.05, 0.1, 0.2, 0.4, 0.5, 1, 2 and 4. They rise, and a number
/// beyond the last stands for the last.
pub proof fn law_time_scales_rise(i: usize, j: usize, a: Single, b: Single)
    requires
        call_ensures(time_scale, (i,), a),
        call_ensures(time_scale, (j,), b),
    ensures
        i == 0 ==> a.bits == 0x3c23_d70a,
        i == 1 ==> a.bits == 0x3d4c_cccd,
        i == 2 ==> a.bits == 0x3dcc_cccd,
        i == 3 ==> a.bits == 0x3e4c_cccd,
        i == 4 ==> a.bits == 0x3ecc_cccd,
        i == 5 ==> a.bits == 0x3f00_0000,
        i == 6 ==> a.bits == 0x3f80_0000,
        i == 7 ==> a.bits == 0x4000_0000,
        i >= 8 ==> a.bits == 0x4080_0000,
        i < j <= 8 ==> a.less(b),
{
}

/// A frame moves the cursors: the real one is noted. The spring and the point cursor start at it when
/// their tool takes hold, ease towards it while it holds, each noting where it was, and stay
/// otherwise.
pub proof fn law_cursors_ease_towards_the_real_one(
    c: &mut Cursors,
    tool: u32,
    cursor: [Single; 2],
    eased_spring: [Single; 2],
    eased_point: [Single; 2],
    r: CursorMotion,
)
    requires
        call_ensures(Cursors::advance, (c, tool, cursor, eased_spring, eased_point), r),
    ensures
        final(c).world_last == cursor,
        tool == 7 ==> final(c).spring == cursor && final(c).spring_last == cursor,
        tool == 8 ==> final(c).spring == eased_spring && final(c).spring_last == old(c).spring,
        tool != 7 && tool != 8 ==> final(c).spring == old(c).spring && final(c).spring_last == old(
            c,
        ).spring_last,
        tool == 10 ==> final(c).point == cursor && final(c).point_last == cursor,
        tool == 11 ==> final(c).point == eased_point && final(c).point_last == old(c).point,
        tool != 10 && tool != 11 ==> final(c).point == old(c).point && final(c).point_last == old(
            c,
        ).point_last,
        tool == 8 ==> r.from == old(c).spring && r.to == eased_spring && r.at == cursor,
        tool == 11 ==> r.from == old(c).point_last && r.to == old(c).point && r.at == eased_point,
        tool != 8 && tool != 11 ==> r.from == old(c).world_last && r.to == cursor && r.at == cursor,
{
}

/// The step is told what the frame is: its numbers as they are, the cursor, the tool and its
/// rectangle, the switches as 0 and 1, the reconnect signal with ctrl and the charge with alt while
/// the left button is down, and -1 for no charge.
pub proof fn law_step_is_told_the_frame(
    s: Interaction,
    keys: Modifiers,
    tool: FrameTool,
    at: [Single; 2],
    n: FrameNumbers,
    on: Switches,
    cfg: ModifierConfig,
    sources: WorldSources,
    materials: Vec<MaterialDef>,
    active: u32,
    r: SimParams,
)
    requires
        call_ensures(
            sim_params,
            (&s, &keys, &tool, at, &n, &on, &cfg, &sources, &materials, active),
            r,
        ),
    ensures
        r.dt == n.dt,
        r.grab_radius == n.grab_radius,
        r.scene_scale == n.scene_scale,
        r.damping_factor == n.damping_factor,
        r.gravity == n.gravity,
        r.grid_offset_x == n.grid_offset@[0],
        r.grid_offset_y == n.grid_offset@[1],
        r.mouse_x == at@[0],
        r.mouse_y == at@[1],
        r.mouse_vx == n.cursor_vel@[0],
        r.mouse_vy == n.cursor_vel@[1],
        r.active_count == active,
        r.drag_mode == tool.mode,
        r.rect_min_x == tool.area.min_x,
        r.rect_min_y == tool.area.min_y,
        r.rect_max_x == tool.area.max_x,
        r.rect_max_y == tool.area.max_y,
        tool.mode == 1 || tool.mode == 3 || tool.mode == 5 || tool.mode == 8 || tool.mode == 11
            || tool.mode == 13 ==> r.mouse_active.bits == 0x3f80_0000,
        !(tool.mode == 1 || tool.mode == 3 || tool.mode == 5 || tool.mode == 8 || tool.mode == 11
            || tool.mode == 13) ==> r.mouse_active.bits == 0,
        s.left_pressed && keys.ctrl ==> r.force_reconnect.bits == 0x3f80_0000,
        !(s.left_pressed && keys.ctrl) ==> r.force_reconnect.bits == 0,
        s.left_pressed && keys.alt ==> r.apply_charge == n.charge,
        !(s.left_pressed && keys.alt) ==> r.apply_charge.bits == 0xbf80_0000,
        on.dynamic_link ==> r.allow_dynamic_link == 1,
        !on.dynamic_link ==> r.allow_dynamic_link == 0,
        on.surface_tension ==> r.allow_surface_tension == 1,
        !on.surface_tension ==> r.allow_surface_tension == 0,
        s.paused ==> r.is_paused_flag == 1,
        !s.paused ==> r.is_paused_flag == 0,
{
}

/// The step is told of the brush only while the brush is chosen, and then of what is ticked: the
/// material, the node that spawning with the same choice makes, and the temperature. What is not
/// ticked is told as no request.
pub proof fn law_step_is_told_the_brush(
    s: Interaction,
    keys: Modifiers,
    tool: FrameTool,
    at: [Single; 2],
    n: FrameNumbers,
    on: Switches,
    cfg: ModifierConfig,
    sources: WorldSources,
    materials: Vec<MaterialDef>,
    active: u32,
    r: SimParams,
    inv_mass: Single,
    grav: Single,
)
    requires
        call_ensures(
            sim_params,
            (&s, &keys, &tool, at, &n, &on, &cfg, &sources, &materials, active),
            r,
        ),
        call_ensures(node_inv_mass, (cfg.target_node, n.brush_per_mass), inv_mass),
        call_ensures(node_grav_scale, (cfg.target_node, cfg.target_damping), grav),
    ensures
        s.mode is ModifyArea && cfg.modify_mat ==> r.mod_mat == cfg.target_mat,
        !(s.mode is ModifyArea && cfg.modify_mat) ==> r.mod_mat == 0xffff_ffff,
        s.mode is ModifyArea && cfg.modify_node ==> r.mod_node_inv_mass == inv_mass
            && r.mod_node_grav == grav,
        !(s.mode is ModifyArea && cfg.modify_node) ==> r.mod_node_inv_mass.nan()
            && r.mod_node_grav.bits == 0x3f80_0000,
        s.mode is ModifyArea && cfg.modify_temp ==> r.mod_temp == cfg.target_temp,
        !(s.mode is ModifyArea && cfg.modify_temp) ==> r.mod_temp.nan(),
{
}

/// The step is told of the centres of attraction as they are packed, and of the materials as their
/// property rows.
pub proof fn law_step_is_told_the_scene(
    s: Interaction,
    keys: Modifiers,
    tool: FrameTool,
    at: [Single; 2],
    n: FrameNumbers,
    on: Switches,
    cfg: ModifierConfig,
    sources: WorldSources,
    materials: Vec<MaterialDef>,
    active: u32,
    r: SimParams,
    packed: ([Single; 32], u32),
    i: int,
    row: MaterialPropsWGSL,
)
    requires
        call_ensures(
            sim_params,
            (&s, &keys, &tool, at, &n, &on, &cfg, &sources, &materials, active),
            r,
        ),
        call_ensures(WorldSources::pack_gravity, (&sources,), packed),
        0 <= i < 16,
        i < materials@.len() ==> call_ensures(material_props, (i as usize, &materials@[i]), row),
    ensures
        r.num_gravity_sources == packed.1,
        r.gravity_sources@ == packed.0@,
        i < materials@.len() ==> {
            &&& r.materials@[i].base_color@ == row.base_color@
            &&& r.materials@[i].color2@ == row.color2@
            &&& r.materials@[i].conn_dist == row.conn_dist
            &&& r.materials@[i].len_break == row.len_break
            &&& r.materials@[i].ang_break == row.ang_break
            &&& r.materials@[i].melt_temp == row.melt_temp
            &&& r.materials@[i].boil_temp == row.boil_temp
            &&& r.materials@[i].flags == row.flags
            &&& r.materials@[i].surface_tension == row.surface_tension
        },
{
    let _ = r.materials@[i];
    let centres = attracting(sources.list@, sources.list@.len() as int);
    assert forall|k: int| 0 <= k < 32 implies r.gravity_sources@[k] == packed.0@[k] by {
        let g = k / 4;
        if k < 4 * packed.1 {
            let _ = centres[g];
            assert(k == 4 * g || k == 4 * g + 1 || k == 4 * g + 2 || k == 4 * g + 3);
        }
    }
    assert(r.gravity_sources@ =~= packed.0@);
}

} // verus!
