//! The end of a step: a particle is moved, corrected, kept inside the scene and slowed down.
use vstd::prelude::*;
use crate::forces::{is_movable, is_pinned};
use crate::params::SimParams;
use crate::particle::Particle;
use crate::single::{num, Single, ONE};

verus! {

/// -0.5: a pinned particle with a gravity factor from here on takes no corrections.
pub const RIGID_FROM: u32 = 0xbf00_0000;

/// 0.3: the highest speed.
pub const SPEED_LIMIT: u32 = 0x3e99_999a;

/// Two particle spacings: the longest correction.
pub const CORRECTION_LIMIT: u32 = 0x3cb7_8034;

/// The numbers behind the end of a particle's step. Each is computed for the state that the
/// particle has by then.
#[derive(Clone, Copy, Debug, PartialEq, Eq)]
pub struct Motion {
    /// Position after the velocity has acted.
    pub drifted_pos: [Single; 2],
    /// Rounding residue that the position then has.
    pub drifted_residue: [Single; 2],
    /// Position after the corrections.
    pub corrected_pos: [Single; 2],
    /// Velocity after the corrections.
    pub corrected_vel: [Single; 2],
    /// Velocities across the wall after bouncing off the bottom, the top, the left and the
    /// right.
    pub rebound: [Single; 4],
    /// Speed after bouncing.
    pub speed: Single,
    /// Velocity scaled down to the speed limit.
    pub capped_vel: [Single; 2],
    /// Temperature after cooling.
    pub cooled: Single,
}

/// The walls of the scene: the lowest and the highest coordinate, the same for both axes.
#[derive(Clone, Copy, Debug, PartialEq, Eq)]
pub struct Walls {
    pub low: Single,
    pub high: Single,
}

/// The velocity moves the particle: it has a mass that can be moved, or a tool carries it.
pub open spec fn drifts(p: Particle) -> bool {
    p.movable() || p.grabbed()
}

/// Corrections pass the particle by.
pub open spec fn rigid(p: Particle) -> bool {
    p.pinned() && num(RIGID_FROM).at_most(p.grav_scale)
}

/// A coordinate kept between the walls.
pub open spec fn walled(x: Single, w: Walls) -> Single {
    let up = if x.less(w.low) {
        w.low
    } else {
        x
    };
    if w.high.less(up) {
        w.high
    } else {
        up
    }
}

/// The velocity across the walls of a particle at coordinate `x`, given its rebound velocities.
pub open spec fn bounced(x: Single, v: Single, w: Walls, off_low: Single, off_high: Single) -> Single {
    let up = if x.less(w.low) {
        w.low
    } else {
        x
    };
    if w.high.less(up) {
        off_high
    } else if x.less(w.low) {
        off_low
    } else {
        v
    }
}

/// The position before the walls are looked at.
pub open spec fn unwalled_pos(p: Particle, m: Motion) -> Seq<Single> {
    if !rigid(p) {
        m.corrected_pos@
    } else if drifts(p) {
        m.drifted_pos@
    } else {
        p.pos@
    }
}

/// The velocity before the walls are looked at.
pub open spec fn unwalled_vel(p: Particle, params: SimParams, m: Motion) -> Seq<Single> {
    if !rigid(p) && num(0).less(params.dt) {
        m.corrected_vel@
    } else if drifts(p) {
        p.vel@
    } else {
        seq![num(0), num(0)]
    }
}

/// The position at the end of the step.
pub open spec fn settled_pos(p: Particle, m: Motion, w: Walls) -> Seq<Single> {
    let x = unwalled_pos(p, m);
    if p.movable() {
        seq![walled(x[0], w), walled(x[1], w)]
    } else {
        x
    }
}

/// The velocity at the end of the step.
pub open spec fn settled_vel(p: Particle, params: SimParams, m: Motion, w: Walls) -> Seq<Single> {
    let x = unwalled_pos(p, m);
    let v = unwalled_vel(p, params, m);
    if !p.movable() {
        v
    } else if !m.speed.finite() {
        seq![num(0), num(0)]
    } else if num(SPEED_LIMIT).less(m.speed) {
        m.capped_vel@
    } else {
        seq![
            bounced(x[0], v[0], w, m.rebound@[2], m.rebound@[3]),
            bounced(x[1], v[1], w, m.rebound@[0], m.rebound@[1]),
        ]
    }
}

/// `to` is the particle at the end of the step.
pub open spec fn settles_to(
    p: Particle,
    params: SimParams,
    m: Motion,
    w: Walls,
    to: Particle,
) -> bool {
    &&& to.pos@ == settled_pos(p, m, w)
    &&& to.vel@ == settled_vel(p, params, m, w)
    &&& to.temperature == m.cooled
    &&& to.links == p.links
    &&& to.charge == p.charge
    &&& to.angle == p.angle
    &&& to.mat_type == p.mat_type
    &&& to.inv_mass == p.inv_mass
    &&& to.grav_scale == p.grav_scale
}

/// The rounding residue of the position at the end of the step.
pub open spec fn settled_residue(p: Particle, m: Motion) -> Seq<Single> {
    if drifts(p) {
        m.drifted_residue@
    } else {
        seq![num(0), num(0)]
    }
}

/// The correction that several collisions ask for together: their sum, or `mean`, which is the
/// sum divided by their number, where there is more than one.
pub fn joint_correction(sum: [Single; 2], mean: [Single; 2], collisions: Single) -> (r: [Single; 2])
    ensures
        r == if num(ONE).less(collisions) {
            mean
        } else {
            sum
        },
{
    if collisions.gt(Single::from_bits(ONE)) {
        mean
    } else {
        sum
    }
}

/// A correction of the given length held to the limit: `cut` is the same correction brought down
/// to it.
pub fn hold_back(correction: [Single; 2], length: Single, cut: [Single; 2]) -> (r: [Single; 2])
    ensures
        r == if num(CORRECTION_LIMIT).less(length) {
            cut
        } else {
            correction
        },
{
    if length.gt(Single::from_bits(CORRECTION_LIMIT)) {
        cut
    } else {
        correction
    }
}

/// Whether the velocity moves the particle.
pub fn is_drifting(p: &Particle) -> (r: bool)
    ensures
        r == drifts(*p),
{
    is_movable(p) || p.is_grabbed()
}

/// Whether corrections pass the particle by.
pub fn is_rigid(p: &Particle) -> (r: bool)
    ensures
        r == rigid(*p),
{
    is_pinned(p) && p.grav_scale.ge(Single::from_bits(RIGID_FROM))
}

/// Moves a particle by its velocity, or stops it; returns it with its new residue.
pub fn drift(p: &Particle, m: &Motion) -> (r: (Particle, [Single; 2]))
    ensures
        r.1@ == settled_residue(*p, *m),
        drifts(*p) ==> r.0 == (Particle { pos: m.drifted_pos, ..*p }),
        !drifts(*p) ==> r.0.vel@ == seq![num(0), num(0)] && r.0 == (Particle {
            vel: r.0.vel,
            ..*p
        }),
{
    let mut q: Particle = *p;
    if is_drifting(p) {
        q.pos = m.drifted_pos;
        (q, m.drifted_residue)
    } else {
        let zero = Single::from_bits(0);
        q.vel = [zero, zero];
        let still: [Single; 2] = [zero, zero];
        assert(still@ =~= seq![zero, zero]);
        (q, still)
    }
}

/// Applies the corrections to a particle that has drifted, unless they pass it by.
pub fn correct(p: &Particle, params: &SimParams, m: &Motion) -> (r: Particle)
    ensures
        r == if rigid(*p) {
            *p
        } else {
            (Particle {
                pos: m.corrected_pos,
                vel: if num(0).less(params.dt) {
                    m.corrected_vel
                } else {
                    p.vel
                },
                ..*p
            })
        },
{
    let mut q: Particle = *p;
    if !is_rigid(p) {
        q.pos = m.corrected_pos;
        if params.dt.gt(Single::from_bits(0)) {
            q.vel = m.corrected_vel;
        }
    }
    q
}

/// Keeps one coordinate between the walls; returns it with the velocity across them.
pub fn bounce(x: Single, v: Single, w: &Walls, off_low: Single, off_high: Single) -> (r: (
    Single,
    Single,
))
    ensures
        r.0 == walled(x, *w),
        r.1 == bounced(x, v, *w, off_low, off_high),
{
    let mut pos: Single = x;
    let mut vel: Single = v;
    if pos.lt(w.low) {
        pos = w.low;
        vel = off_low;
    }
    if pos.gt(w.high) {
        pos = w.high;
        vel = off_high;
    }
    (pos, vel)
}

/// Keeps a particle inside the scene and below the speed limit, if it has a mass that can be
/// moved.
pub fn confine(p: &Particle, m: &Motion, w: &Walls) -> (r: Particle)
    ensures
        !p.movable() ==> r == *p,
        p.movable() ==> {
            &&& r.pos@ == seq![walled(p.pos@[0], *w), walled(p.pos@[1], *w)]
            &&& r.vel@ == if !m.speed.finite() {
                seq![num(0), num(0)]
            } else if num(SPEED_LIMIT).less(m.speed) {
                m.capped_vel@
            } else {
                seq![
                    bounced(p.pos@[0], p.vel@[0], *w, m.rebound@[2], m.rebound@[3]),
                    bounced(p.pos@[1], p.vel@[1], *w, m.rebound@[0], m.rebound@[1]),
                ]
            }
            &&& r == (Particle { pos: r.pos, vel: r.vel, ..*p })
        },
{
    let mut q: Particle = *p;
    if is_movable(p) {
        let (y, vy) = bounce(p.pos[1], p.vel[1], w, m.rebound[0], m.rebound[1]);
        let (x, vx) = bounce(p.pos[0], p.vel[0], w, m.rebound[2], m.rebound[3]);
        q.pos = [x, y];
        q.vel = [vx, vy];
        assert(q.pos@ =~= seq![x, y]);
        assert(q.vel@ =~= seq![vx, vy]);
        if m.speed.gt(Single::from_bits(SPEED_LIMIT)) || !m.speed.is_finite() {
            if m.speed.is_finite() {
                q.vel = m.capped_vel;
            } else {
                let zero = Single::from_bits(0);
                q.vel = [zero, zero];
                assert(q.vel@ =~= seq![zero, zero]);
            }
        }
    }
    q
}

/// The end of a particle's step: drift, corrections, walls, speed limit and cooling. Returns the
/// particle with its new residue.
pub fn settle(p: &Particle, params: &SimParams, m: &Motion, w: &Walls) -> (r: (
    Particle,
    [Single; 2],
))
    ensures
        settles_to(*p, *params, *m, *w, r.0),
        r.1@ == settled_residue(*p, *m),
{
    let (drifted, residue) = drift(p, m);
    let corrected = correct(&drifted, params, m);
    let mut q = confine(&corrected, m, w);
    q.temperature = m.cooled;
    assert(settled_pos(*p, *m, *w) =~= q.pos@);
    assert(settled_vel(*p, *params, *m, *w) =~= q.vel@);
    (q, residue)
}

/// A pinned particle that no tool holds stays where it is, at rest.
pub proof fn law_pinned_stays_put(p: Particle, params: SimParams, m: Motion, w: Walls, to: Particle)
    requires
        settles_to(p, params, m, w, to),
        rigid(p),
        !p.grabbed(),
    ensures
        to.pos@ == p.pos@,
        to.vel@ == seq![num(0), num(0)],
        settled_residue(p, m) == seq![num(0), num(0)],
{
}

/// A particle that can move ends every step inside the scene, unless its position is lost.
pub proof fn law_movable_stays_inside(
    p: Particle,
    params: SimParams,
    m: Motion,
    w: Walls,
    to: Particle,
    axis: int,
)
    requires
        settles_to(p, params, m, w, to),
        p.movable(),
        w.low.at_most(w.high),
        0 <= axis < 2,
        !unwalled_pos(p, m)[axis].nan(),
    ensures
        w.low.at_most(to.pos@[axis]),
        to.pos@[axis].at_most(w.high),
{
}

/// The end of a step changes no link, no mark and no material.
pub proof fn law_settling_keeps_links(
    p: Particle,
    params: SimParams,
    m: Motion,
    w: Walls,
    to: Particle,
)
    requires
        settles_to(p, params, m, w, to),
    ensures
        to.links@ == p.links@,
        to.removed() == p.removed(),
        to.material_row() == p.material_row(),
{
}

/// Several collisions are corrected by their mean, one by itself, and no correction is longer than
/// the limit lets it be.
pub proof fn law_corrections_are_held_back(
    sum: [Single; 2],
    mean: [Single; 2],
    collisions: Single,
    joint: [Single; 2],
    length: Single,
    cut: [Single; 2],
    held: [Single; 2],
)
    requires
        call_ensures(joint_correction, (sum, mean, collisions), joint),
        call_ensures(hold_back, (joint, length, cut), held),
    ensures
        num(0x3f80_0000).less(collisions) ==> joint == mean,
        !num(0x3f80_0000).less(collisions) ==> joint == sum,
        num(0x3cb7_8034).less(length) ==> held == cut,
        !num(0x3cb7_8034).less(length) ==> held == joint,
{
}

/// A movable or held particle drifts, any other is stopped where it is; and a particle takes
/// corrections unless it is pinned with a gravity factor of -0.5 or more. Their velocity counts
/// only in a step that takes time.
pub proof fn law_drift_and_corrections(
    p: Particle,
    params: SimParams,
    m: Motion,
    r: (Particle, [Single; 2]),
    c: Particle,
    drifting: bool,
    rigid: bool,
)
    requires
        call_ensures(drift, (&p, &m), r),
        call_ensures(correct, (&p, &params, &m), c),
        call_ensures(is_drifting, (&p,), drifting),
        call_ensures(is_rigid, (&p,), rigid),
    ensures
        drifting == (num(0x3a83_126f).less(p.inv_mass.absolute()) || p.mat_type & 0x8000_0000 != 0),
        rigid == (p.inv_mass.absolute().less(num(0x3a83_126f)) && num(0xbf00_0000).at_most(
            p.grav_scale,
        )),
        drifting ==> r.0.pos == m.drifted_pos && r.0.vel == p.vel && r.1@ == m.drifted_residue@,
        !drifting ==> {
            &&& r.0.pos == p.pos
            &&& r.0.vel@[0].bits == 0
            &&& r.0.vel@[1].bits == 0
            &&& r.1@[0].bits == 0
            &&& r.1@[1].bits == 0
        },
        r.0 == (Particle { pos: r.0.pos, vel: r.0.vel, ..p }),
        rigid ==> c == p,
        !rigid ==> c.pos == m.corrected_pos,
        !rigid && num(0).less(params.dt) ==> c.vel == m.corrected_vel,
        !rigid && !num(0).less(params.dt) ==> c.vel == p.vel,
        c == (Particle { pos: c.pos, vel: c.vel, ..p }),
{
}

/// A coordinate between the walls and its velocity stay; one below the low wall is put on it, one
/// above the high wall on that, and the velocity is the rebound of that wall. Where the walls cross,
/// the high one counts.
pub proof fn law_walls_throw_back(
    x: Single,
    v: Single,
    w: Walls,
    off_low: Single,
    off_high: Single,
    r: (Single, Single),
)
    requires
        call_ensures(bounce, (x, v, &w, off_low, off_high), r),
    ensures
        x.less(w.low) && !w.high.less(w.low) ==> r.0 == w.low && r.1 == off_low,
        x.less(w.low) && w.high.less(w.low) ==> r.0 == w.high && r.1 == off_high,
        !x.less(w.low) && w.high.less(x) ==> r.0 == w.high && r.1 == off_high,
        !x.less(w.low) && !w.high.less(x) ==> r.0 == x && r.1 == v,
{
}

/// A movable particle is thrown back by the walls on both axes and held to the speed limit of 0.3; a
/// speed that is no number stops it. A particle that cannot be moved stays as it is.
pub proof fn law_movable_particles_are_confined(
    p: Particle,
    m: Motion,
    w: Walls,
    r: Particle,
    across: (Single, Single),
    along: (Single, Single),
)
    requires
        call_ensures(confine, (&p, &m, &w), r),
        call_ensures(bounce, (p.pos@[0], p.vel@[0], &w, m.rebound@[2], m.rebound@[3]), across),
        call_ensures(bounce, (p.pos@[1], p.vel@[1], &w, m.rebound@[0], m.rebound@[1]), along),
    ensures
        !num(0x3a83_126f).less(p.inv_mass.absolute()) ==> r == p,
        num(0x3a83_126f).less(p.inv_mass.absolute()) ==> {
            &&& r.pos@[0] == across.0
            &&& r.pos@[1] == along.0
            &&& m.speed.bits % 0x8000_0000 >= 0x7f80_0000 ==> r.vel@[0].bits == 0 && r.vel@[1].bits
                == 0
            &&& m.speed.finite() && num(0x3e99_999a).less(m.speed) ==> r.vel@ == m.capped_vel@
            &&& m.speed.finite() && !num(0x3e99_999a).less(m.speed) ==> r.vel@[0] == across.1
                && r.vel@[1] == along.1
        },
        r == (Particle { pos: r.pos, vel: r.vel, ..p }),
{
}

/// A step ends with drift, corrections and walls, in this order, and then the particle cools.
pub proof fn law_settling_goes_through_its_stages(
    p: Particle,
    params: SimParams,
    m: Motion,
    w: Walls,
    r: (Particle, [Single; 2]),
    drifted: (Particle, [Single; 2]),
    corrected: Particle,
    confined: Particle,
)
    requires
        call_ensures(settle, (&p, &params, &m, &w), r),
        call_ensures(drift, (&p, &m), drifted),
        call_ensures(correct, (&drifted.0, &params, &m), corrected),
        call_ensures(confine, (&corrected, &m, &w), confined),
    ensures
        r.0.pos@ == confined.pos@,
        r.0.vel@ == confined.vel@,
        r.0.temperature == m.cooled,
        r.0.links == p.links,
        r.0.charge == p.charge,
        r.0.angle == p.angle,
        r.0.mat_type == p.mat_type,
        r.0.inv_mass == p.inv_mass,
        r.0.grav_scale == p.grav_scale,
        r.1@ == drifted.1@,
{
    assert(r.0.pos@ =~= confined.pos@);
    assert(r.0.vel@ =~= confined.vel@);
}

} // verus!
