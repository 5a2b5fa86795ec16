//! The fate of a particle's existing links during a step.
use vstd::prelude::*;
use crate::forces::is_melted;
use crate::material::FLAG_SOFT;
use crate::params::SimParams;
use crate::particle::{Particle, NO_LINK};
use crate::single::{num, Single};

verus! {

/// 0.00001: distances and weights below it count as none.
pub const NEGLIGIBLE: u32 = 0x3727_c5ac;

/// 0.5: the reconnect signal above which links near the cursor are cut.
pub const CUT_ABOVE: u32 = 0x3f00_0000;

/// 0.00001: how far a link gives way.
pub const STIFF: u32 = 0x3727_c5ac;

/// 400 times as far: how far a soft link gives way.
pub const SOFT: u32 = 0x3b83_126e;

/// 0.005: a step that is longer softens every link.
pub const LONG_STEP: u32 = 0x3ba3_d70a;

/// The numbers behind one link.
#[derive(Clone, Copy, Debug, PartialEq, Eq)]
pub struct BondReading {
    /// Distance of the two ends.
    pub dist: Single,
    /// Five times the rest length.
    pub snap_dist: Single,
    /// Distance from the cursor to the particle.
    pub cursor_dist: Single,
    /// Distance from the cursor to the other end.
    pub other_cursor_dist: Single,
    /// Length beyond the rest length.
    pub stretch: Single,
    /// Stretch at which the link breaks.
    pub break_stretch: Single,
    /// Sum of the two inverse masses.
    pub weight_sum: Single,
    /// Solution of the length constraint.
    pub multiplier: Single,
}

/// What becomes of a link slot.
#[derive(Clone, Copy, Debug, PartialEq, Eq, Structural)]
pub enum BondFate {
    /// The slot is emptied.
    Broken,
    /// The link is kept and exerts nothing.
    Slack,
    /// The link is kept and pulls or pushes.
    Working,
}

/// Whether `link`, as found in a slot, names one of the first `active` particles.
pub open spec fn names_active(link: i32, active: u32) -> bool {
    0 <= link && link < active
}

/// Whether the link between particle `i`, now `p`, and `other` is cut for what the two ends
/// are: the other end is lost or removed, one of them has melted, or it does not link back.
pub open spec fn ends_part(i: int, p: Particle, other: Particle, params: SimParams) -> bool {
    ||| !other.pos@[0].finite()
    ||| !other.pos@[1].finite()
    ||| other.removed()
    ||| p.melted(params.materials@[p.material_row()].melt_temp)
    ||| other.melted(params.materials@[other.material_row()].melt_temp)
    ||| !other.links@.contains(i as i32)
}

/// Whether a link is cut for its length: torn far apart, collapsed, near the cursor while the
/// cursor cuts, or stretched beyond its strength.
pub open spec fn reading_parts(m: BondReading, params: SimParams) -> bool {
    ||| m.snap_dist.less(m.dist)
    ||| m.dist.less(num(NEGLIGIBLE))
    ||| num(CUT_ABOVE).less(params.force_reconnect) && (m.cursor_dist.less(params.grab_radius)
        || m.other_cursor_dist.less(params.grab_radius))
    ||| m.break_stretch.less(m.stretch)
}

/// What becomes of the link of particle `i`, now `p`, in one slot.
pub open spec fn bond_fate(
    i: int,
    p: Particle,
    link: i32,
    particles: Seq<Particle>,
    params: SimParams,
    m: BondReading,
) -> BondFate {
    if !names_active(link, params.active_count) {
        BondFate::Broken
    } else if ends_part(i, p, particles[link as int], params) || reading_parts(m, params) {
        BondFate::Broken
    } else if m.weight_sum.less(num(NEGLIGIBLE)) {
        BondFate::Slack
    } else if !m.multiplier.finite() {
        BondFate::Broken
    } else {
        BondFate::Working
    }
}

/// How far a link of a material with these flags gives way in a step of moderate length.
pub fn compliance(flags: u32) -> (r: Single)
    ensures
        r == if flags & FLAG_SOFT != 0 {
            num(SOFT)
        } else {
            num(STIFF)
        },
{
    if flags & FLAG_SOFT != 0 {
        Single::from_bits(SOFT)
    } else {
        Single::from_bits(STIFF)
    }
}

/// Whether a step is so long that links have to be softened for it.
pub fn is_long_step(dt: Single) -> (r: bool)
    ensures
        r == num(LONG_STEP).less(dt),
{
    dt.gt(Single::from_bits(LONG_STEP))
}

/// The particle that slot `k` links to, if the slot names an active one.
pub fn bond_partner(p: &Particle, k: usize, active: u32) -> (r: Option<usize>)
    requires
        k < 6,
    ensures
        r == if names_active(p.links@[k as int], active) {
            Some(p.links@[k as int] as usize)
        } else {
            None
        },
{
    let link: i32 = p.links[k];
    if link < 0 || link as u32 >= active {
        None
    } else {
        Some(link as usize)
    }
}

/// Decides one slot.
fn judge_bond(
    i: usize,
    p: &Particle,
    link: i32,
    particles: &Vec<Particle>,
    params: &SimParams,
    m: &BondReading,
) -> (r: BondFate)
    requires
        i <= i32::MAX,
        names_active(link, params.active_count) ==> link < particles@.len(),
    ensures
        r == bond_fate(i as int, *p, link, particles@, *params, *m),
{
    if link < 0 || link as u32 >= params.active_count {
        return BondFate::Broken;
    }
    let other: &Particle = &particles[link as usize];
    let own_melt = params.materials[p.material()].melt_temp;
    let other_melt = params.materials[other.material()].melt_temp;
    if !other.pos[0].is_finite() || !other.pos[1].is_finite() || other.is_removed() || is_melted(
        p,
        own_melt,
    ) || is_melted(other, other_melt) || !other.has_link(i as i32) {
        return BondFate::Broken;
    }
    let negligible = Single::from_bits(NEGLIGIBLE);
    if m.dist.gt(m.snap_dist) || m.dist.lt(negligible) {
        return BondFate::Broken;
    }
    if params.force_reconnect.gt(Single::from_bits(CUT_ABOVE)) {
        if m.cursor_dist.lt(params.grab_radius) || m.other_cursor_dist.lt(params.grab_radius) {
            return BondFate::Broken;
        }
    }
    if m.stretch.gt(m.break_stretch) {
        return BondFate::Broken;
    }
    if m.weight_sum.lt(negligible) {
        return BondFate::Slack;
    }
    if !m.multiplier.is_finite() {
        return BondFate::Broken;
    }
    BondFate::Working
}

/// Goes through the six links of particle `i`, now `p`: empties the slots whose link breaks, and
/// says of each slot what becomes of it. A reading is looked at only where the slot names an
/// active particle.
pub fn settle_bonds(
    i: usize,
    p: &Particle,
    particles: &Vec<Particle>,
    params: &SimParams,
    readings: &[BondReading; 6],
) -> (r: (Particle, [BondFate; 6]))
    requires
        i <= i32::MAX,
        forall|k: int|
            0 <= k < 6 && names_active(#[trigger] p.links@[k], params.active_count)
                ==> p.links@[k] < particles@.len(),
    ensures
        r.0.same_but_links(*p),
        forall|k: int|
            0 <= k < 6 ==> #[trigger] r.1@[k] == bond_fate(
                i as int,
                *p,
                p.links@[k],
                particles@,
                *params,
                readings@[k],
            ),
        forall|k: int|
            0 <= k < 6 ==> #[trigger] r.0.links@[k] == if r.1@[k] == BondFate::Broken {
                NO_LINK
            } else {
                p.links@[k]
            },
{
    let mut q: Particle = *p;
    let mut fates: [BondFate; 6] = [BondFate::Broken; 6];
    let mut k: usize = 0;
    while k < 6
        invariant
            k <= 6,
            i <= i32::MAX,
            forall|m: int|
                0 <= m < 6 && names_active(#[trigger] p.links@[m], params.active_count)
                    ==> p.links@[m] < particles@.len(),
            q.same_but_links(*p),
            forall|m: int|
                0 <= m < k ==> #[trigger] fates@[m] == bond_fate(
                    i as int,
                    *p,
                    p.links@[m],
                    particles@,
                    *params,
                    readings@[m],
                ),
            forall|m: int|
                0 <= m < 6 ==> #[trigger] q.links@[m] == if m < k && fates@[m]
                    == BondFate::Broken {
                    NO_LINK
                } else {
                    p.links@[m]
                },
        decreases 6 - k,
    {
        let fate = judge_bond(i, p, p.links[k], particles, params, &readings[k]);
        fates[k] = fate;
        if fate == BondFate::Broken {
            q.links[k] = NO_LINK;
        }
        k += 1;
    }
    (q, fates)
}

/// A link that a step keeps is mutual and leads to a particle that is there: the other end is
/// active, not removed, and links back.
pub proof fn law_kept_links_are_mutual(
    i: int,
    p: Particle,
    link: i32,
    particles: Seq<Particle>,
    params: SimParams,
    m: BondReading,
)
    requires
        bond_fate(i, p, link, particles, params, m) != BondFate::Broken,
    ensures
        0 <= link < params.active_count,
        !particles[link as int].removed(),
        particles[link as int].links@.contains(i as i32),
        !p.melted(params.materials@[p.material_row()].melt_temp),
{
}

/// A particle that has melted keeps no link.
pub proof fn law_melted_keeps_nothing(
    i: int,
    p: Particle,
    link: i32,
    particles: Seq<Particle>,
    params: SimParams,
    m: BondReading,
)
    requires
        p.melted(params.materials@[p.material_row()].melt_temp),
    ensures
        bond_fate(i, p, link, particles, params, m) == BondFate::Broken,
{
}

/// A link is kept exactly if it leads to an active particle that is there, has not melted and links
/// back, from one that has not melted either, and is neither torn, collapsed, cut by the cursor nor
/// stretched beyond its strength. It works unless both ends are immovable; without a solution it
/// breaks as well. A kept link stays in its slot, and nothing but the slots changes.
pub proof fn law_links_are_kept_for_a_reason(
    i: usize,
    p: Particle,
    particles: Vec<Particle>,
    params: SimParams,
    readings: [BondReading; 6],
    r: (Particle, [BondFate; 6]),
    k: int,
)
    requires
        i <= i32::MAX,
        forall|l: int|
            0 <= l < 6 && 0 <= #[trigger] p.links@[l] && p.links@[l] < params.active_count
                ==> p.links@[l] < particles@.len(),
        call_ensures(settle_bonds, (i, &p, &particles, &params, &readings), r),
        0 <= k < 6,
    ensures
        ({
            let l = p.links@[k];
            let m = readings@[k];
            let other = particles@[l as int];
            let named = 0 <= l && l < params.active_count;
            let there = other.pos@[0].finite() && other.pos@[1].finite() && other.mat_type
                & 0x4000_0000 == 0;
            let back = exists|s: int| 0 <= s < 6 && #[trigger] other.links@[s] == i;
            let solid = !(num(0).at_most(p.grav_scale)
                && params.materials@[p.material_row()].melt_temp.less(p.temperature)) && !(num(
                0,
            ).at_most(other.grav_scale) && params.materials@[other.material_row()].melt_temp.less(
                other.temperature,
            ));
            let cut = num(0x3f00_0000).less(params.force_reconnect) && (m.cursor_dist.less(
                params.grab_radius,
            ) || m.other_cursor_dist.less(params.grab_radius));
            let holds = !m.snap_dist.less(m.dist) && !m.dist.less(num(0x3727_c5ac))
                && !m.break_stretch.less(m.stretch);
            let idle = m.weight_sum.less(num(0x3727_c5ac));
            let sound = named && there && back && solid && !cut && holds;
            &&& r.1@[k] is Slack <==> sound && idle
            &&& r.1@[k] is Working <==> sound && !idle && m.multiplier.finite()
            &&& r.1@[k] is Broken ==> r.0.links@[k] == -1
            &&& !(r.1@[k] is Broken) ==> r.0.links@[k] == l
        }),
        r.0.pos == p.pos,
        r.0.vel == p.vel,
        r.0.charge == p.charge,
        r.0.angle == p.angle,
        r.0.temperature == p.temperature,
        r.0.mat_type == p.mat_type,
        r.0.inv_mass == p.inv_mass,
        r.0.grav_scale == p.grav_scale,
{
    assert forall|l: int|
        0 <= l < 6 && names_active(#[trigger] p.links@[l], params.active_count) implies p.links@[l]
        < particles@.len() by {}
    let _ = r.1@[k];
    let _ = r.0.links@[k];
    let other = particles@[p.links@[k] as int];
    assert(i as i32 == i);
    assert forall|s: int| 0 <= s < 6 && #[trigger] other.links@[s] == i implies other.links@.contains(
        i as i32,
    ) by {}
}

/// A slot has a partner exactly if it names one of the active particles, and that is the partner.
pub proof fn law_partners_are_active(p: Particle, k: usize, active: u32, r: Option<usize>)
    requires
        k < 6,
        call_ensures(bond_partner, (&p, k, active), r),
    ensures
        r matches Some(j) ==> j == p.links@[k as int] && j < active,
        0 <= p.links@[k as int] && p.links@[k as int] < active ==> r is Some,
{
}

/// A soft material gives way four hundred times as far as any other, and a step above 0.005 is long.
pub proof fn law_soft_links_give_way(flags: u32, dt: Single, r: Single, long: bool)
    requires
        call_ensures(compliance, (flags,), r),
        call_ensures(is_long_step, (dt,), long),
    ensures
        flags & 1 != 0 ==> r.bits == 0x3b83_126e,
        flags & 1 == 0 ==> r.bits == 0x3727_c5ac,
        long == num(0x3ba3_d70a).less(dt),
{
}

} // verus!
