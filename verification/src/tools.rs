//! What the tool in use does to a single particle during a step.
use vstd::prelude::*;
use crate::forces::{is_movable, PARKED};
use crate::params::SimParams;
use crate::particle::{no_links, Particle, GRABBED, NO_LINK, REMOVED};
use crate::single::{num, Single};

verus! {

/// No tool.
pub const IDLE: u32 = 0;

/// Start, hold and release of the absolute grab.
pub const GRAB_START: u32 = 2;

pub const GRAB_HOLD: u32 = 3;

pub const GRAB_RELEASE: u32 = 4;

/// Erase under the brush.
pub const ERASE_BRUSH: u32 = 5;

/// Erase inside the rectangle.
pub const ERASE_RECT: u32 = 6;

/// Start, hold and release of the spring grab.
pub const SPRING_START: u32 = 7;

pub const SPRING_HOLD: u32 = 8;

pub const SPRING_RELEASE: u32 = 9;

/// Start, hold and release of the point grab.
pub const POINT_START: u32 = 10;

pub const POINT_HOLD: u32 = 11;

pub const POINT_RELEASE: u32 = 12;

/// Change properties under the brush.
pub const MODIFY: u32 = 13;

/// Erase everything that is not pinned.
pub const CLEAR_MOVABLE: u32 = 14;

/// Value of `mod_mat` that leaves the material alone.
pub const KEEP_MATERIAL: u32 = 0xffff_ffff;

/// A NaN: the value of `mod_node_inv_mass` that leaves the node alone, and of `mod_temp` that leaves
/// the temperature alone. Every number is a request.
pub const NO_REQUEST: u32 = 0x7fc0_0000;

/// -2: the inverse mass by which the device is told to leave the node alone.
pub const DEVICE_KEEPS_NODE: u32 = 0xc000_0000;

/// -1: the temperature by which the device is told to leave the temperature alone.
pub const DEVICE_KEEPS_TEMPERATURE: u32 = 0xbf80_0000;

/// 0.0001: nearer to the cursor than this a particle has no direction.
pub const AT_CURSOR: u32 = 0x38d1_b717;

/// The numbers behind a tool's effect on one particle.
#[derive(Clone, Copy, Debug, PartialEq, Eq)]
pub struct ToolReading {
    /// Distance from the cursor.
    pub cursor_dist: Single,
    /// Cursor movement divided by the time step.
    pub carried_vel: [Single; 2],
    /// Velocity that keeps the particle on its circle round the cursor.
    pub ring_vel: [Single; 2],
    /// Position put back on the circle round the cursor.
    pub ring_pos: [Single; 2],
}

/// The tool takes hold of particles.
pub open spec fn starts_grab(mode: u32) -> bool {
    mode == GRAB_START || mode == SPRING_START || mode == POINT_START
}

/// The tool carries the particles it holds along.
pub open spec fn carries(mode: u32) -> bool {
    mode == GRAB_HOLD || mode == SPRING_HOLD
}

/// The tool lets go.
pub open spec fn releases(mode: u32) -> bool {
    mode == GRAB_RELEASE || mode == SPRING_RELEASE || mode == POINT_RELEASE
}

/// The tool erases.
pub open spec fn erases(mode: u32) -> bool {
    mode == ERASE_BRUSH || mode == ERASE_RECT || mode == CLEAR_MOVABLE
}

/// The particle stands inside the rectangle of the step.
pub open spec fn inside_rect(p: Particle, params: SimParams) -> bool {
    &&& params.rect_min_x.at_most(p.pos@[0])
    &&& p.pos@[0].at_most(params.rect_max_x)
    &&& params.rect_min_y.at_most(p.pos@[1])
    &&& p.pos@[1].at_most(params.rect_max_y)
}

/// The eraser in use hits the particle.
pub open spec fn erased_by(p: Particle, params: SimParams, cursor_dist: Single) -> bool {
    ||| params.drag_mode == ERASE_BRUSH && cursor_dist.less(params.grab_radius)
    ||| params.drag_mode == ERASE_RECT && inside_rect(p, params)
    ||| params.drag_mode == CLEAR_MOVABLE && p.movable()
}

/// `to` is the particle with the removal mark, parked far outside, at rest, massless for the
/// solver and without links.
pub open spec fn parked(p: Particle, to: Particle) -> bool {
    &&& to.mat_type == p.mat_type | REMOVED
    &&& to.pos@ == seq![num(PARKED), num(PARKED)]
    &&& to.inv_mass == num(0)
    &&& to.vel@ == seq![num(0), num(0)]
    &&& forall|k: int| 0 <= k < 6 ==> to.links@[k] == NO_LINK
    &&& to.charge == p.charge
    &&& to.angle == p.angle
    &&& to.temperature == p.temperature
    &&& to.grav_scale == p.grav_scale
}

/// `to` is the particle with the properties that the brush sets.
pub open spec fn modified(p: Particle, params: SimParams) -> Particle {
    let sets_node = !params.mod_node_inv_mass.nan();
    Particle {
        mat_type: if params.mod_mat != KEEP_MATERIAL {
            (p.mat_type & 0xffff_ff00) | params.mod_mat
        } else {
            p.mat_type
        },
        inv_mass: if sets_node {
            params.mod_node_inv_mass
        } else {
            p.inv_mass
        },
        grav_scale: if sets_node {
            params.mod_node_grav
        } else {
            p.grav_scale
        },
        temperature: if !params.mod_temp.nan() {
            params.mod_temp
        } else {
            p.temperature
        },
        ..p
    }
}

/// Whether `to` is what the tool in use makes of the particle.
pub open spec fn tooled(p: Particle, params: SimParams, m: ToolReading, to: Particle) -> bool {
    let mode = params.drag_mode;
    if starts_grab(mode) {
        if m.cursor_dist.less(params.grab_radius) && p.movable() {
            to == Particle {
                mat_type: p.mat_type | GRABBED,
                angle: if mode == POINT_START {
                    m.cursor_dist
                } else {
                    p.angle
                },
                ..p
            }
        } else {
            to == p
        }
    } else if carries(mode) {
        if p.grabbed() {
            to == Particle { vel: m.carried_vel, ..p }
        } else {
            to == p
        }
    } else if mode == POINT_HOLD {
        if p.grabbed() {
            if num(AT_CURSOR).less(m.cursor_dist) {
                to == Particle { vel: m.ring_vel, pos: m.ring_pos, ..p }
            } else {
                to.vel@ == seq![params.mouse_vx, params.mouse_vy] && to == Particle {
                    vel: to.vel,
                    ..p
                }
            }
        } else {
            to == p
        }
    } else if releases(mode) {
        if p.grabbed() {
            to == Particle { mat_type: p.mat_type & 0x7fff_ffff, ..p }
        } else {
            to == p
        }
    } else if erases(mode) {
        if erased_by(p, params, m.cursor_dist) {
            parked(p, to)
        } else {
            to == p
        }
    } else if mode == MODIFY {
        if m.cursor_dist.less(params.grab_radius) {
            to == modified(p, params)
        } else {
            to == p
        }
    } else {
        to == p
    }
}

/// Removes a particle: marks it and parks it.
pub fn park(p: &Particle) -> (r: Particle)
    ensures
        parked(*p, r),
{
    let zero = Single::from_bits(0);
    let far = Single::from_bits(PARKED);
    let mut q: Particle = *p;
    q.mat_type = q.mat_type | REMOVED;
    q.pos = [far, far];
    q.inv_mass = zero;
    q.vel = [zero, zero];
    q.links = no_links();
    assert(q.pos@ =~= seq![far, far]);
    assert(q.vel@ =~= seq![zero, zero]);
    q
}

/// Applies the tool in use to a particle. Also says whether the position correction collected
/// so far is to be dropped, as it is for a particle that is carried along.
pub fn apply_tool(p: &Particle, params: &SimParams, m: &ToolReading) -> (r: (Particle, bool))
    ensures
        tooled(*p, *params, *m, r.0),
        r.1 == (carries(params.drag_mode) && p.grabbed()),
{
    let mode: u32 = params.drag_mode;
    let mut q: Particle = *p;
    if mode == GRAB_START || mode == SPRING_START || mode == POINT_START {
        if m.cursor_dist.lt(params.grab_radius) && is_movable(p) {
            q.mat_type = q.mat_type | GRABBED;
            if mode == POINT_START {
                q.angle = m.cursor_dist;
            }
        }
    } else if mode == GRAB_HOLD || mode == SPRING_HOLD {
        if p.is_grabbed() {
            q.vel = m.carried_vel;
            return (q, true);
        }
    } else if mode == POINT_HOLD {
        if p.is_grabbed() {
            if m.cursor_dist.gt(Single::from_bits(AT_CURSOR)) {
                q.vel = m.ring_vel;
                q.pos = m.ring_pos;
            } else {
                q.vel = [params.mouse_vx, params.mouse_vy];
                assert(q.vel@ =~= seq![params.mouse_vx, params.mouse_vy]);
            }
        }
    } else if mode == GRAB_RELEASE || mode == SPRING_RELEASE || mode == POINT_RELEASE {
        if p.is_grabbed() {
            q.mat_type = q.mat_type & 0x7fff_ffff;
        }
    } else if mode == ERASE_BRUSH {
        if m.cursor_dist.lt(params.grab_radius) {
            q = park(p);
        }
    } else if mode == ERASE_RECT {
        if p.pos[0].ge(params.rect_min_x) && p.pos[0].le(params.rect_max_x) && p.pos[1].ge(
            params.rect_min_y,
        ) && p.pos[1].le(params.rect_max_y) {
            q = park(p);
        }
    } else if mode == CLEAR_MOVABLE {
        if is_movable(p) {
            q = park(p);
        }
    } else if mode == MODIFY {
        if m.cursor_dist.lt(params.grab_radius) {
            if params.mod_mat != KEEP_MATERIAL {
                q.mat_type = (q.mat_type & 0xffff_ff00) | params.mod_mat;
            }
            if !params.mod_node_inv_mass.is_nan() {
                q.inv_mass = params.mod_node_inv_mass;
                q.grav_scale = params.mod_node_grav;
            }
            if !params.mod_temp.is_nan() {
                q.temperature = params.mod_temp;
            }
        }
    }
    (q, false)
}

/// A request of the brush as the device is told it: `keep` stands for no request.
pub fn for_device(request: Single, keep: Single) -> (r: Single)
    ensures
        r == if request.nan() {
            keep
        } else {
            request
        },
{
    if request.is_nan() {
        keep
    } else {
        request
    }
}

/// Charges a particle under the cursor, if the step asks for it: a charge that is not negative
/// is set on every particle nearer than the grab radius.
pub fn inject_charge(p: &Particle, params: &SimParams, cursor_dist: Single) -> (r: Particle)
    ensures
        r == (Particle {
            charge: if num(0).at_most(params.apply_charge) && cursor_dist.less(
                params.grab_radius,
            ) {
                params.apply_charge
            } else {
                p.charge
            },
            ..*p
        }),
{
    let mut q: Particle = *p;
    if params.apply_charge.ge(Single::from_bits(0)) {
        if cursor_dist.lt(params.grab_radius) {
            q.charge = params.apply_charge;
        }
    }
    q
}

/// What an eraser hits carries the removal mark from then on, no link leads out of it, and the
/// mark does not touch the rest of the type word.
pub proof fn law_erased_is_removed(p: Particle, params: SimParams, m: ToolReading, to: Particle)
    requires
        tooled(p, params, m, to),
        erases(params.drag_mode),
        erased_by(p, params, m.cursor_dist),
    ensures
        to.removed(),
        to.grabbed() == p.grabbed(),
        to.material_row() == p.material_row(),
        forall|k: int| 0 <= k < 6 ==> to.links@[k] == NO_LINK,
        !to.movable(),
{
    let w = p.mat_type;
    assert((w | 0x4000_0000u32) & 0x4000_0000u32 != 0) by (bit_vector);
    assert((w | 0x4000_0000u32) & 0x8000_0000u32 == w & 0x8000_0000u32) by (bit_vector);
    assert((w | 0x4000_0000u32) & 0xffu32 == w & 0xffu32) by (bit_vector);
}

/// No tool but an eraser, and no brush that sets a plain material, removes a particle or brings
/// a removed one back.
pub proof fn law_only_erasers_remove(p: Particle, params: SimParams, m: ToolReading, to: Particle)
    requires
        tooled(p, params, m, to),
        !erases(params.drag_mode),
        params.mod_mat <= 0xff || params.mod_mat == KEEP_MATERIAL,
    ensures
        to.removed() == p.removed(),
{
    let w = p.mat_type;
    let n = params.mod_mat;
    assert((w | 0x8000_0000u32) & 0x4000_0000u32 == w & 0x4000_0000u32) by (bit_vector);
    assert((w & 0x7fff_ffffu32) & 0x4000_0000u32 == w & 0x4000_0000u32) by (bit_vector);
    assert(n <= 0xffu32 ==> ((w & 0xffff_ff00u32) | n) & 0x4000_0000u32 == w & 0x4000_0000u32)
        by (bit_vector);
}

/// Letting go undoes taking hold: a particle that was free, then grabbed, then released has its
/// old type word.
pub proof fn law_release_undoes_grab(
    p: Particle,
    grab: SimParams,
    grab_reading: ToolReading,
    held: Particle,
    release: SimParams,
    release_reading: ToolReading,
    freed: Particle,
)
    requires
        !p.grabbed(),
        starts_grab(grab.drag_mode),
        tooled(p, grab, grab_reading, held),
        releases(release.drag_mode),
        tooled(held, release, release_reading, freed),
    ensures
        freed.mat_type == p.mat_type,
        !freed.grabbed(),
        freed.pos == p.pos,
        freed.vel == p.vel,
        freed.links == p.links,
{
    let w = p.mat_type;
    assert(w & 0x8000_0000u32 == 0 ==> (w | 0x8000_0000u32) & 0x7fff_ffffu32 == w) by (bit_vector);
    assert((w | 0x8000_0000u32) & 0x8000_0000u32 != 0) by (bit_vector);
}

/// A brush that sets a plain material sets exactly that: the material changes, the marks stay.
pub proof fn law_brush_sets_the_material(p: Particle, params: SimParams)
    requires
        params.mod_mat <= 0xff,
    ensures
        modified(p, params).mat_type & 0xff == params.mod_mat,
        modified(p, params).removed() == p.removed(),
        modified(p, params).grabbed() == p.grabbed(),
{
    let w = p.mat_type;
    let n = params.mod_mat;
    assert(n <= 0xffu32 ==> ((w & 0xffff_ff00u32) | n) & 0xffu32 == n) by (bit_vector);
    assert(n <= 0xffu32 ==> ((w & 0xffff_ff00u32) | n) & 0x4000_0000u32 == w & 0x4000_0000u32)
        by (bit_vector);
    assert(n <= 0xffu32 ==> ((w & 0xffff_ff00u32) | n) & 0x8000_0000u32 == w & 0x8000_0000u32)
        by (bit_vector);
}

/// A parked particle carries the removal mark, lies far outside, rests, weighs nothing and has no
/// link; its charge, angle, temperature and gravity factor stay.
pub proof fn law_parked_lies_far_outside(p: Particle, r: Particle, k: int)
    requires
        call_ensures(park, (&p,), r),
        0 <= k < 6,
    ensures
        r.mat_type == p.mat_type | 0x4000_0000,
        r.pos@[0].bits == 0x469c_4000,
        r.pos@[1].bits == 0x469c_4000,
        r.vel@[0].bits == 0,
        r.vel@[1].bits == 0,
        r.inv_mass.bits == 0,
        r.links@[k] == -1,
        r.charge == p.charge,
        r.angle == p.angle,
        r.temperature == p.temperature,
        r.grav_scale == p.grav_scale,
{
}

/// Taking hold marks a particle exactly if it is movable and nearer than the grab radius. The point
/// grab also notes the distance, in place of the angle. Nothing else changes.
pub proof fn law_grab_marks_what_it_reaches(
    p: Particle,
    params: SimParams,
    m: ToolReading,
    r: (Particle, bool),
)
    requires
        params.drag_mode == 2 || params.drag_mode == 7 || params.drag_mode == 10,
        call_ensures(apply_tool, (&p, &params, &m), r),
    ensures
        ({
            let hit = m.cursor_dist.less(params.grab_radius) && num(0x3a83_126f).less(
                p.inv_mass.absolute(),
            );
            &&& r.0.mat_type == if hit {
                p.mat_type | 0x8000_0000
            } else {
                p.mat_type
            }
            &&& r.0.angle == if hit && params.drag_mode == 10 {
                m.cursor_dist
            } else {
                p.angle
            }
        }),
        r.0.pos == p.pos,
        r.0.vel == p.vel,
        r.0.links == p.links,
        r.0.charge == p.charge,
        r.0.temperature == p.temperature,
        r.0.inv_mass == p.inv_mass,
        r.0.grav_scale == p.grav_scale,
        !r.1,
{
}

/// A held particle goes along with the cursor, or stays on its circle round it; one right under the
/// cursor takes its velocity. One that is not held stays as it is. Only what is carried along drops
/// its corrections.
pub proof fn law_held_particles_go_along(
    p: Particle,
    params: SimParams,
    m: ToolReading,
    r: (Particle, bool),
)
    requires
        params.drag_mode == 3 || params.drag_mode == 8 || params.drag_mode == 11,
        call_ensures(apply_tool, (&p, &params, &m), r),
    ensures
        p.mat_type & 0x8000_0000 == 0 ==> r.0 == p && !r.1,
        p.mat_type & 0x8000_0000 != 0 && params.drag_mode != 11 ==> {
            &&& r.1
            &&& r.0.vel == m.carried_vel
            &&& r.0.pos == p.pos
        },
        p.mat_type & 0x8000_0000 != 0 && params.drag_mode == 11 && num(0x38d1_b717).less(
            m.cursor_dist,
        ) ==> {
            &&& !r.1
            &&& r.0.vel == m.ring_vel
            &&& r.0.pos == m.ring_pos
        },
        p.mat_type & 0x8000_0000 != 0 && params.drag_mode == 11 && !num(0x38d1_b717).less(
            m.cursor_dist,
        ) ==> {
            &&& !r.1
            &&& r.0.vel@[0] == params.mouse_vx
            &&& r.0.vel@[1] == params.mouse_vy
            &&& r.0.pos == p.pos
        },
        r.0.links == p.links,
        r.0.charge == p.charge,
        r.0.angle == p.angle,
        r.0.temperature == p.temperature,
        r.0.mat_type == p.mat_type,
        r.0.inv_mass == p.inv_mass,
        r.0.grav_scale == p.grav_scale,
{
}

/// Letting go takes the mark off every particle that has it, wherever it is, and changes nothing
/// else.
pub proof fn law_release_takes_the_mark_off(
    p: Particle,
    params: SimParams,
    m: ToolReading,
    r: (Particle, bool),
)
    requires
        params.drag_mode == 4 || params.drag_mode == 9 || params.drag_mode == 12,
        call_ensures(apply_tool, (&p, &params, &m), r),
    ensures
        r.0.mat_type == p.mat_type & 0x7fff_ffff,
        r.0 == (Particle { mat_type: r.0.mat_type, ..p }),
        !r.1,
{
    let w = p.mat_type;
    assert(w & 0x8000_0000u32 == 0 ==> w & 0x7fff_ffffu32 == w) by (bit_vector);
}

/// The erasers park what they hit, far outside, at rest, without weight or links: the brush what is
/// nearer than the grab radius, the rectangle what lies in it, edges counted, and the clearing tool
/// what is movable.
pub proof fn law_erasers_park_what_they_hit(
    p: Particle,
    params: SimParams,
    m: ToolReading,
    r: (Particle, bool),
    k: int,
)
    requires
        params.drag_mode == 5 || params.drag_mode == 6 || params.drag_mode == 14,
        call_ensures(apply_tool, (&p, &params, &m), r),
        0 <= k < 6,
    ensures
        ({
            let hit = if params.drag_mode == 5 {
                m.cursor_dist.less(params.grab_radius)
            } else if params.drag_mode == 6 {
                params.rect_min_x.at_most(p.pos@[0]) && p.pos@[0].at_most(params.rect_max_x)
                    && params.rect_min_y.at_most(p.pos@[1]) && p.pos@[1].at_most(params.rect_max_y)
            } else {
                num(0x3a83_126f).less(p.inv_mass.absolute())
            };
            &&& !hit ==> r.0 == p
            &&& hit ==> {
                &&& r.0.mat_type == p.mat_type | 0x4000_0000
                &&& r.0.pos@[0].bits == 0x469c_4000
                &&& r.0.pos@[1].bits == 0x469c_4000
                &&& r.0.vel@[0].bits == 0
                &&& r.0.vel@[1].bits == 0
                &&& r.0.inv_mass.bits == 0
                &&& r.0.links@[k] == -1
                &&& r.0.charge == p.charge
                &&& r.0.angle == p.angle
                &&& r.0.temperature == p.temperature
                &&& r.0.grav_scale == p.grav_scale
            }
        }),
        !r.1,
{
}

/// The brush sets what it was asked to set, on what is nearer than the grab radius: the low byte of
/// the type word, the inverse mass together with the gravity factor, and the temperature. What was
/// not asked for stays, and zero is asked for like any number.
pub proof fn law_brush_sets_what_was_asked(
    p: Particle,
    params: SimParams,
    m: ToolReading,
    r: (Particle, bool),
)
    requires
        params.drag_mode == 13,
        call_ensures(apply_tool, (&p, &params, &m), r),
    ensures
        ({
            let hit = m.cursor_dist.less(params.grab_radius);
            &&& r.0.mat_type == if hit && params.mod_mat != 0xffff_ffff {
                (p.mat_type & 0xffff_ff00) | params.mod_mat
            } else {
                p.mat_type
            }
            &&& r.0.inv_mass == if hit && params.mod_node_inv_mass.bits % 0x8000_0000
                <= 0x7f80_0000 {
                params.mod_node_inv_mass
            } else {
                p.inv_mass
            }
            &&& r.0.grav_scale == if hit && params.mod_node_inv_mass.bits % 0x8000_0000
                <= 0x7f80_0000 {
                params.mod_node_grav
            } else {
                p.grav_scale
            }
            &&& r.0.temperature == if hit && params.mod_temp.bits % 0x8000_0000 <= 0x7f80_0000 {
                params.mod_temp
            } else {
                p.temperature
            }
        }),
        r.0.pos == p.pos,
        r.0.vel == p.vel,
        r.0.links == p.links,
        r.0.charge == p.charge,
        r.0.angle == p.angle,
        !r.1,
{
}

/// Without a tool that works on particles nothing happens to them.
pub proof fn law_idle_tool_does_nothing(
    p: Particle,
    params: SimParams,
    m: ToolReading,
    r: (Particle, bool),
)
    requires
        params.drag_mode < 2 || params.drag_mode > 14,
        call_ensures(apply_tool, (&p, &params, &m), r),
    ensures
        r.0 == p,
        !r.1,
{
}

/// A charge of zero or more is set on what is nearer than the grab radius, and a negative one is no
/// request; nothing else changes.
pub proof fn law_charge_is_set_under_the_cursor(
    p: Particle,
    params: SimParams,
    cursor_dist: Single,
    r: Particle,
)
    requires
        call_ensures(inject_charge, (&p, &params, cursor_dist), r),
    ensures
        num(0).at_most(params.apply_charge) && cursor_dist.less(params.grab_radius) ==> r.charge
            == params.apply_charge,
        !(num(0).at_most(params.apply_charge) && cursor_dist.less(params.grab_radius)) ==> r.charge
            == p.charge,
        r == (Particle { charge: r.charge, ..p }),
{
}

/// The device is told every request as it is, and something else exactly where there is none.
pub proof fn law_device_is_told_every_request(request: Single, keep: Single, r: Single)
    requires
        call_ensures(for_device, (request, keep), r),
    ensures
        request.bits % 0x8000_0000 <= 0x7f80_0000 ==> r == request,
        request.bits % 0x8000_0000 > 0x7f80_0000 ==> r == keep,
{
}

} // verus!
