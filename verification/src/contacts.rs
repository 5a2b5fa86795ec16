//! What a particle does with the neighbours that the grid finds around it: it bumps into them,
//! bonds with them, shares charge with them, or is drawn to them.
use vstd::prelude::*;
use crate::bonds::NEGLIGIBLE;
use crate::params::SimParams;
use crate::particle::{Particle, NO_LINK};
use crate::ports::{find_port, is_nearest_port, law_some_port_is_nearest, nearest_port};
use crate::single::{num, Single};

verus! {

/// Square of thirty particle spacings: a neighbour further away is passed over.
pub const REACH_SQUARED: u32 = 0x3de7_3604;

/// Two particle spacings: charge spreads below this distance.
pub const SPREAD_BELOW: u32 = 0x3cb7_8034;

/// 0.05: particles bond only below this relative speed.
pub const BOND_SPEED: u32 = 0x3d4c_cccd;

/// 0.4: the widest angle, in radians, between a port and a new bond.
pub const BOND_ANGLE: u32 = 0x3ecc_cccd;

/// 1.5: the reconnect signal above which no bond is made near the cursor.
pub const NO_BOND_ABOVE: u32 = 0x3fc0_0000;

/// -0.001: a gravity factor below it is that of a floating particle.
pub const FLOATING_BELOW: u32 = 0xba83_126f;

/// 0.5: the inverse mass that a floating particle shows in contacts.
pub const FLOATING_WEIGHT: u32 = 0x3f00_0000;

/// The numbers behind one neighbour.
#[derive(Clone, Copy, Debug, PartialEq, Eq)]
pub struct ContactReading {
    /// Squared distance.
    pub dist_sq: Single,
    /// Distance.
    pub dist: Single,
    /// Distance at which the two touch.
    pub conn: Single,
    /// 0.95 times that distance.
    pub bond_min: Single,
    /// 1.05 times that distance.
    pub bond_max: Single,
    /// 2.5 times that distance.
    pub pull_max: Single,
    /// Sum of the two contact weights.
    pub weight_sum: Single,
    /// Relative velocity along the line from the neighbour to the particle.
    pub approach: Single,
    /// Relative speed.
    pub rel_speed: Single,
    /// Angle between each port of the particle and the neighbour.
    pub own_gaps: [Single; 6],
    /// Angle between each port of the neighbour and the particle.
    pub other_gaps: [Single; 6],
}

/// What passes between the particle and one neighbour.
#[derive(Clone, Copy, Debug, PartialEq, Eq)]
pub struct Contact {
    /// They overlap and push each other away.
    pub collides: bool,
    /// They collide while approaching, which costs speed and makes heat.
    pub rebounds: bool,
    /// The particle bonds with the neighbour.
    pub bonds: bool,
    /// The neighbour's charge counts towards the local mean.
    pub spreads: bool,
    /// Surface tension draws them together.
    pub pulls: bool,
    /// Surface tension also slows their parting.
    pub drags: bool,
}

/// The neighbour is looked at: it is another active particle with a known position and not
/// beyond reach.
pub open spec fn considered(
    i: int,
    particles: Seq<Particle>,
    params: SimParams,
    c: int,
    m: ContactReading,
) -> bool {
    &&& c != i
    &&& c < params.active_count
    &&& particles[c].pos@[0].finite()
    &&& particles[c].pos@[1].finite()
    &&& !num(REACH_SQUARED).less(m.dist_sq)
}

/// The two touch without being linked.
pub open spec fn touches(links: Seq<i32>, c: int, m: ContactReading) -> bool {
    &&& m.dist.less(m.conn)
    &&& num(NEGLIGIBLE).less(m.dist)
    &&& !links.contains(c as i32)
    &&& num(NEGLIGIBLE).less(m.weight_sum)
}

/// Both are solid, at bonding distance, slow enough, and not linked yet.
pub open spec fn bondable(
    p: Particle,
    links: Seq<i32>,
    other: Particle,
    params: SimParams,
    c: int,
    m: ContactReading,
) -> bool {
    &&& params.allow_dynamic_link != 0
    &&& p.temperature.at_most(params.materials@[p.material_row()].melt_temp)
    &&& other.temperature.at_most(params.materials@[other.material_row()].melt_temp)
    &&& !links.contains(c as i32)
    &&& m.bond_min.less(m.dist)
    &&& m.dist.less(m.bond_max)
    &&& m.rel_speed.less(num(BOND_SPEED))
}

/// The cursor keeps the particle from bonding.
pub open spec fn bond_barred(params: SimParams, cursor_dist: Single) -> bool {
    num(NO_BOND_ABOVE).less(params.force_reconnect) && cursor_dist.less(params.grab_radius)
}

/// The slot in which the particle, with `links` in its slots, bonds with the neighbour: its
/// nearest free port, provided the neighbour has one as well.
pub open spec fn bond_slot(
    p: Particle,
    links: Seq<i32>,
    other: Particle,
    params: SimParams,
    cursor_dist: Single,
    c: int,
    m: ContactReading,
) -> Option<int> {
    if bondable(p, links, other, params, c, m) && !bond_barred(params, cursor_dist) && nearest_port(
        other.links@,
        m.other_gaps@,
        num(BOND_ANGLE),
    ) is Some {
        nearest_port(links, m.own_gaps@, num(BOND_ANGLE))
    } else {
        None
    }
}

/// Surface tension acts between the two.
pub open spec fn draws(p: Particle, other: Particle, params: SimParams, m: ContactReading) -> bool {
    &&& params.allow_surface_tension != 0
    &&& num(0).less(params.materials@[p.material_row()].surface_tension)
    &&& m.conn.less(m.dist)
    &&& m.dist.less(m.pull_max)
    &&& p.mat_type == other.mat_type
    &&& num(NEGLIGIBLE).less(m.weight_sum)
}

/// What passes between particle `i`, now `p` with `links` in its slots, and neighbour `c`.
pub open spec fn contact_of(
    i: int,
    p: Particle,
    links: Seq<i32>,
    particles: Seq<Particle>,
    params: SimParams,
    cursor_dist: Single,
    c: int,
    m: ContactReading,
) -> Contact {
    let seen = considered(i, particles, params, c, m);
    Contact {
        collides: seen && touches(links, c, m),
        rebounds: seen && touches(links, c, m) && m.approach.less(num(0)),
        bonds: seen && bond_slot(p, links, particles[c], params, cursor_dist, c, m) is Some,
        spreads: seen && m.dist.less(num(SPREAD_BELOW)),
        pulls: seen && draws(p, particles[c], params, m),
        drags: seen && draws(p, particles[c], params, m) && num(0).less(m.approach),
    }
}

/// The links of particle `i`, now `p`, after the first `n` neighbours.
pub open spec fn links_after(
    i: int,
    p: Particle,
    particles: Seq<Particle>,
    params: SimParams,
    cursor_dist: Single,
    found: Seq<u32>,
    readings: Seq<ContactReading>,
    n: int,
) -> Seq<i32>
    decreases n,
{
    if n <= 0 {
        p.links@
    } else {
        let before = links_after(i, p, particles, params, cursor_dist, found, readings, n - 1);
        let c = found[n - 1] as int;
        let m = readings[n - 1];
        if considered(i, particles, params, c, m) {
            match bond_slot(p, before, particles[c], params, cursor_dist, c, m) {
                Some(k) => before.update(k, c as i32),
                None => before,
            }
        } else {
            before
        }
    }
}

/// Whether one of six slots holds `id`.
fn holds_link(links: &[i32; 6], id: i32) -> (r: bool)
    ensures
        r == links@.contains(id),
{
    let mut k: usize = 0;
    while k < 6
        invariant
            k <= 6,
            forall|m: int| 0 <= m < k ==> links@[m] != id,
        decreases 6 - k,
    {
        if links[k] == id {
            assert(links@[k as int] == id);
            return true;
        }
        k += 1;
    }
    false
}

/// The inverse mass that a particle shows in contacts: a fixed one if it floats.
pub fn contact_weight(p: &Particle) -> (r: Single)
    ensures
        r == if p.grav_scale.less(num(FLOATING_BELOW)) {
            num(FLOATING_WEIGHT)
        } else {
            p.inv_mass.absolute()
        },
{
    if p.grav_scale.lt(Single::from_bits(FLOATING_BELOW)) {
        Single::from_bits(FLOATING_WEIGHT)
    } else {
        p.inv_mass.abs()
    }
}

/// How far, in cells, a particle looks around: four, or two if all its slots are in use and it
/// is colder than `softening` (0.8 times its melting point).
pub fn search_radius(p: &Particle, used: u32, softening: Single) -> (r: i32)
    ensures
        r == if softening.less(p.temperature) || used < 6 {
            4int
        } else {
            2int
        },
{
    if p.temperature.gt(softening) || used < 6 {
        4
    } else {
        2
    }
}

/// Whether the angles of the ports matter for this neighbour: the two stand at bonding
/// distance.
pub fn at_bond_distance(m: &ContactReading) -> (r: bool)
    ensures
        r == (m.bond_min.less(m.dist) && m.dist.less(m.bond_max)),
{
    m.dist.gt(m.bond_min) && m.dist.lt(m.bond_max)
}

/// Decides what passes between particle `i`, now `p` with `links` in its slots, and one
/// neighbour, and in which slot they bond if they do.
fn meet(
    i: usize,
    p: &Particle,
    links: &[i32; 6],
    particles: &Vec<Particle>,
    params: &SimParams,
    cursor_dist: Single,
    c: u32,
    m: &ContactReading,
) -> (r: (Contact, Option<usize>))
    requires
        c < particles@.len(),
        c <= i32::MAX,
    ensures
        r.0 == contact_of(
            i as int,
            *p,
            links@,
            particles@,
            *params,
            cursor_dist,
            c as int,
            *m,
        ),
        considered(i as int, particles@, *params, c as int, *m) ==> bond_slot(
            *p,
            links@,
            particles@[c as int],
            *params,
            cursor_dist,
            c as int,
            *m,
        ) == match r.1 {
            Some(k) => Some(k as int),
            None => None,
        },
        !considered(i as int, particles@, *params, c as int, *m) ==> r.1 is None,
        r.1 is Some ==> r.1->0 < 6,
{
    let nothing = Contact {
        collides: false,
        rebounds: false,
        bonds: false,
        spreads: false,
        pulls: false,
        drags: false,
    };
    let other: &Particle = &particles[c as usize];
    if c as usize == i || c >= params.active_count || !other.pos[0].is_finite()
        || !other.pos[1].is_finite() || m.dist_sq.gt(Single::from_bits(REACH_SQUARED)) {
        return (nothing, None);
    }
    let zero = Single::from_bits(0);
    let negligible = Single::from_bits(NEGLIGIBLE);
    let heavy = m.weight_sum.gt(negligible);
    let already = holds_link(links, c as i32);
    let collides = m.dist.lt(m.conn) && m.dist.gt(negligible) && !already && heavy;
    let mut slot: Option<usize> = None;
    if params.allow_dynamic_link != 0 && p.temperature.le(params.materials[p.material()].melt_temp)
        && other.temperature.le(params.materials[other.material()].melt_temp) {
        if !already && at_bond_distance(m) && m.rel_speed.lt(Single::from_bits(BOND_SPEED)) {
            let barred = params.force_reconnect.gt(Single::from_bits(NO_BOND_ABOVE))
                && cursor_dist.lt(params.grab_radius);
            if !barred {
                let widest = Single::from_bits(BOND_ANGLE);
                let back = find_port(&other.links, &m.other_gaps, widest);
                if back.is_some() {
                    slot = find_port(links, &m.own_gaps, widest);
                }
            }
        }
    }
    let pulls = params.allow_surface_tension != 0
        && params.materials[p.material()].surface_tension.gt(zero) && m.dist.gt(m.conn)
        && m.dist.lt(m.pull_max) && p.mat_type == other.mat_type && heavy;
    (
        Contact {
            collides,
            rebounds: collides && m.approach.lt(zero),
            bonds: slot.is_some(),
            spreads: m.dist.lt(Single::from_bits(SPREAD_BELOW)),
            pulls,
            drags: pulls && m.approach.gt(zero),
        },
        slot,
    )
}

/// Goes through the neighbours found for particle `i`, now `p`, in their order. Says of each
/// what passes between the two, and returns the particle with the bonds it has made; a bond
/// made with one neighbour is seen by the next.
pub fn meet_neighbors(
    i: usize,
    p: &Particle,
    particles: &Vec<Particle>,
    params: &SimParams,
    cursor_dist: Single,
    found: &Vec<u32>,
    readings: &Vec<ContactReading>,
) -> (r: (Particle, Vec<Contact>))
    requires
        found@.len() == readings@.len(),
        forall|n: int|
            0 <= n < found@.len() ==> #[trigger] found@[n] < particles@.len() && found@[n]
                <= i32::MAX,
    ensures
        r.0.same_but_links(*p),
        r.0.links@ == links_after(
            i as int,
            *p,
            particles@,
            *params,
            cursor_dist,
            found@,
            readings@,
            found@.len() as int,
        ),
        r.1@.len() == found@.len(),
        forall|n: int|
            0 <= n < found@.len() ==> #[trigger] r.1@[n] == contact_of(
                i as int,
                *p,
                links_after(
                    i as int,
                    *p,
                    particles@,
                    *params,
                    cursor_dist,
                    found@,
                    readings@,
                    n,
                ),
                particles@,
                *params,
                cursor_dist,
                found@[n] as int,
                readings@[n],
            ),
{
    let mut q: Particle = *p;
    let mut contacts: Vec<Contact> = Vec::new();
    let mut n: usize = 0;
    while n < found.len()
        invariant
            n <= found@.len(),
            found@.len() == readings@.len(),
            forall|a: int|
                0 <= a < found@.len() ==> #[trigger] found@[a] < particles@.len() && found@[a]
                    <= i32::MAX,
            q.same_but_links(*p),
            q.links@ == links_after(
                i as int,
                *p,
                particles@,
                *params,
                cursor_dist,
                found@,
                readings@,
                n as int,
            ),
            contacts@.len() == n,
            forall|a: int|
                0 <= a < n ==> #[trigger] contacts@[a] == contact_of(
                    i as int,
                    *p,
                    links_after(
                        i as int,
                        *p,
                        particles@,
                        *params,
                        cursor_dist,
                        found@,
                        readings@,
                        a,
                    ),
                    particles@,
                    *params,
                    cursor_dist,
                    found@[a] as int,
                    readings@[a],
                ),
        decreases found@.len() - n,
    {
        let c: u32 = found[n];
        let (contact, slot) = meet(
            i,
            p,
            &q.links,
            particles,
            params,
            cursor_dist,
            c,
            &readings[n],
        );
        contacts.push(contact);
        match slot {
            Some(k) => {
                q.links[k] = c as i32;
            },
            None => {},
        }
        n += 1;
    }
    (q, contacts)
}

/// `after` results from `before` by making bonds: links that were there stay in their slots,
/// and every new one leads from particle `i` to another active particle that has a free slot
/// and that no other slot links to.
pub open spec fn only_bonds_made(
    i: int,
    particles: Seq<Particle>,
    params: SimParams,
    before: Seq<i32>,
    after: Seq<i32>,
) -> bool {
    &&& after.len() == before.len()
    &&& forall|k: int|
        0 <= k < before.len() && before[k] != NO_LINK ==> #[trigger] after[k] == before[k]
    &&& forall|k: int|
        0 <= k < before.len() && before[k] == NO_LINK && #[trigger] after[k] != NO_LINK ==> {
            &&& after[k] != i
            &&& 0 <= after[k] < params.active_count
            &&& particles[after[k] as int].links@.contains(NO_LINK)
        }
    &&& forall|a: int, b: int|
        0 <= a < before.len() && 0 <= b < before.len() && a != b && before[b] == NO_LINK
            && #[trigger] after[b] != NO_LINK ==> #[trigger] after[a] != after[b]
}

/// Meeting neighbours breaks no link, links no particle twice, links to no particle that is
/// full, and never links a particle to itself.
pub proof fn law_meeting_only_makes_bonds(
    i: int,
    p: Particle,
    particles: Seq<Particle>,
    params: SimParams,
    cursor_dist: Single,
    found: Seq<u32>,
    readings: Seq<ContactReading>,
    n: int,
)
    requires
        0 <= n <= found.len(),
        forall|a: int| 0 <= a < found.len() ==> #[trigger] found[a] <= i32::MAX,
    ensures
        only_bonds_made(
            i,
            particles,
            params,
            p.links@,
            links_after(i, p, particles, params, cursor_dist, found, readings, n),
        ),
    decreases n,
{
    if n > 0 {
        law_meeting_only_makes_bonds(
            i,
            p,
            particles,
            params,
            cursor_dist,
            found,
            readings,
            n - 1,
        );
        let before = links_after(i, p, particles, params, cursor_dist, found, readings, n - 1);
        let c = found[n - 1] as int;
        let m = readings[n - 1];
        let after = links_after(i, p, particles, params, cursor_dist, found, readings, n);
        if considered(i, particles, params, c, m) && bond_slot(
            p,
            before,
            particles[c],
            params,
            cursor_dist,
            c,
            m,
        ) is Some {
            let k = bond_slot(p, before, particles[c], params, cursor_dist, c, m)->0;
            assert(after == before.update(k, c as i32));
            assert(!before.contains(c as i32));
            let other = particles[c];
            let f = nearest_port(other.links@, m.other_gaps@, num(BOND_ANGLE))->0;
            assert(other.links@[f] == NO_LINK);
            assert forall|a: int, b: int|
                0 <= a < 6 && 0 <= b < 6 && a != b && p.links@[b] == NO_LINK
                    && #[trigger] after[b] != NO_LINK implies #[trigger] after[a] != after[b] by {
                if b == k {
                    assert(before.contains(before[a]));
                } else if a == k {
                    assert(before.contains(before[b]));
                } else {
                    assert(before[a] != before[b]);
                }
            }
        }
    }
}

/// Meeting neighbours looks at no particle but the neighbours.
pub(crate) proof fn lemma_meeting_looks_at_neighbors(
    i: int,
    p: Particle,
    particles: Seq<Particle>,
    others: Seq<Particle>,
    params: SimParams,
    cursor_dist: Single,
    found: Seq<u32>,
    readings: Seq<ContactReading>,
    n: int,
)
    requires
        0 <= n <= found.len(),
        forall|a: int|
            0 <= a < found.len() ==> particles[#[trigger] found[a] as int]
                == others[found[a] as int],
    ensures
        links_after(i, p, particles, params, cursor_dist, found, readings, n) == links_after(
            i,
            p,
            others,
            params,
            cursor_dist,
            found,
            readings,
            n,
        ),
    decreases n,
{
    if n > 0 {
        lemma_meeting_looks_at_neighbors(
            i,
            p,
            particles,
            others,
            params,
            cursor_dist,
            found,
            readings,
            n - 1,
        );
        assert(particles[found[n - 1] as int] == others[found[n - 1] as int]);
    }
}

/// Meeting the first neighbours reads no further than their readings.
proof fn lemma_links_after_prefix(
    i: int,
    p: Particle,
    q: Particle,
    particles: Seq<Particle>,
    params: SimParams,
    cursor_dist: Single,
    found: Seq<u32>,
    readings: Seq<ContactReading>,
    first: Seq<u32>,
    first_readings: Seq<ContactReading>,
    n: int,
)
    requires
        0 <= n <= first.len() <= found.len(),
        first.len() == first_readings.len(),
        found.len() == readings.len(),
        q.links@ == p.links@,
        q.temperature == p.temperature,
        q.mat_type == p.mat_type,
        forall|a: int| 0 <= a < first.len() ==> #[trigger] first[a] == found[a],
        forall|a: int|
            0 <= a < first.len() ==> #[trigger] first_readings[a] == (ContactReading {
                approach: first_readings[a].approach,
                ..readings[a]
            }),
    ensures
        links_after(i, q, particles, params, cursor_dist, first, first_readings, n) == links_after(
            i,
            p,
            particles,
            params,
            cursor_dist,
            found,
            readings,
            n,
        ),
    decreases n,
{
    if n > 0 {
        lemma_links_after_prefix(
            i,
            p,
            q,
            particles,
            params,
            cursor_dist,
            found,
            readings,
            first,
            first_readings,
            n - 1,
        );
        assert(first[n - 1] == found[n - 1]);
        assert(first_readings[n - 1].dist == readings[n - 1].dist);
    }
}

/// Meeting goes on from the links that the neighbours before have left.
proof fn lemma_links_after_suffix(
    i: int,
    p: Particle,
    q: Particle,
    particles: Seq<Particle>,
    params: SimParams,
    cursor_dist: Single,
    found: Seq<u32>,
    readings: Seq<ContactReading>,
    n: int,
    k: int,
)
    requires
        0 <= n,
        0 <= k,
        n + k <= found.len(),
        found.len() == readings.len(),
        q.links@ == links_after(i, p, particles, params, cursor_dist, found, readings, n),
        q.temperature == p.temperature,
        q.mat_type == p.mat_type,
    ensures
        links_after(
            i,
            q,
            particles,
            params,
            cursor_dist,
            found.skip(n),
            readings.skip(n),
            k,
        ) == links_after(i, p, particles, params, cursor_dist, found, readings, n + k),
    decreases k,
{
    if k > 0 {
        lemma_links_after_suffix(
            i,
            p,
            q,
            particles,
            params,
            cursor_dist,
            found,
            readings,
            n,
            k - 1,
        );
        assert(found.skip(n)[k - 1] == found[n + k - 1]);
        assert(readings.skip(n)[k - 1] == readings[n + k - 1]);
    }
}

/// What a slot holds after the first `n` neighbours was there before or is one of them.
proof fn lemma_links_come_from_neighbors(
    i: int,
    p: Particle,
    particles: Seq<Particle>,
    params: SimParams,
    cursor_dist: Single,
    found: Seq<u32>,
    readings: Seq<ContactReading>,
    n: int,
    k: int,
)
    requires
        0 <= n <= found.len(),
        0 <= k < 6,
        forall|a: int| 0 <= a < found.len() ==> #[trigger] found[a] <= i32::MAX,
    ensures
        ({
            let after = links_after(i, p, particles, params, cursor_dist, found, readings, n);
            after.len() == 6 && (after[k] == p.links@[k] || exists|a: int|
                0 <= a < n && #[trigger] found[a] == after[k])
        }),
    decreases n,
{
    if n > 0 {
        lemma_links_come_from_neighbors(
            i,
            p,
            particles,
            params,
            cursor_dist,
            found,
            readings,
            n - 1,
            k,
        );
        assert(found[n - 1] as i32 == found[n - 1]);
    }
}

/// What passes between a particle and a single neighbour, told by the two and the reading alone.
/// They collide exactly if they overlap without being linked, whatever their motion; the rebound
/// takes an approach; charge spreads below two spacings; surface tension acts between two of one
/// kind, beyond touch; and they bond exactly if both are solid, slow, at bonding distance, not
/// linked, not kept apart by the cursor, and have a free port turned to the other.
pub proof fn law_meeting_one_neighbor(
    i: usize,
    p: Particle,
    particles: Vec<Particle>,
    params: SimParams,
    cursor_dist: Single,
    found: Vec<u32>,
    readings: Vec<ContactReading>,
    r: (Particle, Vec<Contact>),
)
    requires
        found@.len() == 1,
        readings@.len() == 1,
        found@[0] < particles@.len(),
        found@[0] <= i32::MAX,
        call_ensures(
            meet_neighbors,
            (i, &p, &particles, &params, cursor_dist, &found, &readings),
            r,
        ),
    ensures
        r.1@.len() == 1,
        ({
            let c = found@[0];
            let m = readings@[0];
            let other = particles@[c as int];
            let t = r.1@[0];
            let seen = c != i && c < params.active_count && other.pos@[0].bits % 0x8000_0000
                < 0x7f80_0000 && other.pos@[1].bits % 0x8000_0000 < 0x7f80_0000 && !num(
                0x3de7_3604,
            ).less(m.dist_sq);
            let linked = exists|k: int| 0 <= k < 6 && #[trigger] p.links@[k] == c;
            let own_port = exists|k: int|
                0 <= k < 6 && #[trigger] p.links@[k] == -1 && m.own_gaps@[k].less(num(0x3ecc_cccd));
            let other_port = exists|k: int|
                0 <= k < 6 && #[trigger] other.links@[k] == -1 && m.other_gaps@[k].less(
                    num(0x3ecc_cccd),
                );
            let solid = p.temperature.at_most(params.materials@[p.material_row()].melt_temp)
                && other.temperature.at_most(params.materials@[other.material_row()].melt_temp);
            let barred = num(0x3fc0_0000).less(params.force_reconnect) && cursor_dist.less(
                params.grab_radius,
            );
            &&& t.collides == (seen && !linked && m.dist.less(m.conn) && num(0x3727_c5ac).less(
                m.dist,
            ) && num(0x3727_c5ac).less(m.weight_sum))
            &&& t.rebounds == (t.collides && m.approach.less(num(0)))
            &&& t.spreads == (seen && m.dist.less(num(0x3cb7_8034)))
            &&& t.pulls == (seen && params.allow_surface_tension != 0 && num(0).less(
                params.materials@[p.material_row()].surface_tension,
            ) && m.conn.less(m.dist) && m.dist.less(m.pull_max) && p.mat_type == other.mat_type
                && num(0x3727_c5ac).less(m.weight_sum))
            &&& t.drags == (t.pulls && num(0).less(m.approach))
            &&& t.bonds == (seen && !linked && params.allow_dynamic_link != 0 && solid && !barred
                && m.bond_min.less(m.dist) && m.dist.less(m.bond_max) && m.rel_speed.less(
                num(0x3d4c_cccd),
            ) && own_port && other_port)
        }),
{
    let c = found@[0];
    let m = readings@[0];
    let other = particles@[c as int];
    let _ = r.1@[0];
    assert(c as i32 == c);
    assert forall|k: int| 0 <= k < 6 && #[trigger] p.links@[k] == c implies p.links@.contains(
        c as i32,
    ) by {}
    assert forall|k: int|
        0 <= k < 6 && #[trigger] p.links@[k] == -1 && m.own_gaps@[k].less(
            num(0x3ecc_cccd),
        ) implies nearest_port(p.links@, m.own_gaps@, num(BOND_ANGLE)) is Some by {
        law_some_port_is_nearest(p.links@, m.own_gaps@, num(BOND_ANGLE), k);
    }
    assert forall|k: int|
        0 <= k < 6 && #[trigger] other.links@[k] == -1 && m.other_gaps@[k].less(
            num(0x3ecc_cccd),
        ) implies nearest_port(other.links@, m.other_gaps@, num(BOND_ANGLE)) is Some by {
        law_some_port_is_nearest(other.links@, m.other_gaps@, num(BOND_ANGLE), k);
    }
}

/// A bond goes into the free port that is turned most towards the neighbour, the first of equals;
/// without a bond no slot changes, and nothing else of the particle ever does.
pub proof fn law_bond_takes_the_best_port(
    i: usize,
    p: Particle,
    particles: Vec<Particle>,
    params: SimParams,
    cursor_dist: Single,
    found: Vec<u32>,
    readings: Vec<ContactReading>,
    r: (Particle, Vec<Contact>),
    j: int,
)
    requires
        found@.len() == 1,
        readings@.len() == 1,
        found@[0] < particles@.len(),
        found@[0] <= i32::MAX,
        0 <= j < 6,
        call_ensures(
            meet_neighbors,
            (i, &p, &particles, &params, cursor_dist, &found, &readings),
            r,
        ),
    ensures
        !r.1@[0].bonds ==> r.0.links@ == p.links@,
        r.1@[0].bonds ==> exists|k: int| #![trigger p.links@[k]] {
            &&& 0 <= k < 6
            &&& p.links@[k] == -1
            &&& readings@[0].own_gaps@[k].less(num(0x3ecc_cccd))
            &&& r.0.links@ == p.links@.update(k, found@[0] as i32)
            &&& p.links@[j] == -1 ==> !readings@[0].own_gaps@[j].less(readings@[0].own_gaps@[k])
            &&& p.links@[j] == -1 && j < k ==> !readings@[0].own_gaps@[j].at_most(
                readings@[0].own_gaps@[k],
            )
        },
        r.0.pos == p.pos,
        r.0.vel == p.vel,
        r.0.charge == p.charge,
        r.0.angle == p.angle,
        r.0.temperature == p.temperature,
        r.0.mat_type == p.mat_type,
        r.0.inv_mass == p.inv_mass,
        r.0.grav_scale == p.grav_scale,
{
    let c = found@[0];
    let m = readings@[0];
    let _ = r.1@[0];
    reveal_with_fuel(links_after, 2);
    if r.1@[0].bonds {
        let k = nearest_port(p.links@, m.own_gaps@, num(BOND_ANGLE))->0;
        assert(is_nearest_port(p.links@, m.own_gaps@, num(BOND_ANGLE), k));
        assert(p.links@[k] == -1);
        let _ = m.own_gaps@[j];
    }
}

/// The neighbours are met one after the other: meeting a list is meeting its first part, and
/// meeting the rest with the particle that comes out of it.
pub proof fn law_meeting_goes_one_by_one(
    i: usize,
    p: Particle,
    particles: Vec<Particle>,
    params: SimParams,
    cursor_dist: Single,
    found: Vec<u32>,
    readings: Vec<ContactReading>,
    first: Vec<u32>,
    first_readings: Vec<ContactReading>,
    rest: Vec<u32>,
    rest_readings: Vec<ContactReading>,
    r: (Particle, Vec<Contact>),
    a: (Particle, Vec<Contact>),
    b: (Particle, Vec<Contact>),
)
    requires
        found@.len() == readings@.len(),
        first@.len() == first_readings@.len(),
        rest@.len() == rest_readings@.len(),
        found@ == first@ + rest@,
        readings@ == first_readings@ + rest_readings@,
        forall|n: int|
            0 <= n < found@.len() ==> #[trigger] found@[n] < particles@.len() && found@[n]
                <= i32::MAX,
        call_ensures(
            meet_neighbors,
            (i, &p, &particles, &params, cursor_dist, &found, &readings),
            r,
        ),
        call_ensures(
            meet_neighbors,
            (i, &p, &particles, &params, cursor_dist, &first, &first_readings),
            a,
        ),
        call_ensures(
            meet_neighbors,
            (i, &a.0, &particles, &params, cursor_dist, &rest, &rest_readings),
            b,
        ),
    ensures
        r.1@ == a.1@ + b.1@,
        r.0.links@ == b.0.links@,
        r.0.pos == b.0.pos,
        r.0.vel == b.0.vel,
        r.0.charge == b.0.charge,
        r.0.angle == b.0.angle,
        r.0.temperature == b.0.temperature,
        r.0.mat_type == b.0.mat_type,
        r.0.inv_mass == b.0.inv_mass,
        r.0.grav_scale == b.0.grav_scale,
{
    let n = first@.len() as int;
    assert(rest@ =~= found@.skip(n));
    assert(rest_readings@ =~= readings@.skip(n));
    assert forall|k: int| 0 <= k < n implies #[trigger] first@[k] == found@[k] by {}
    assert forall|k: int| 0 <= k < rest@.len() implies #[trigger] rest@[k] == found@[n + k] by {}
    assert forall|k: int| 0 <= k <= n implies #[trigger] links_after(
        i as int,
        p,
        particles@,
        params,
        cursor_dist,
        first@,
        first_readings@,
        k,
    ) == links_after(i as int, p, particles@, params, cursor_dist, found@, readings@, k) by {
        lemma_links_after_prefix(
            i as int,
            p,
            p,
            particles@,
            params,
            cursor_dist,
            found@,
            readings@,
            first@,
            first_readings@,
            k,
        );
    }
    assert forall|k: int| 0 <= k <= rest@.len() implies #[trigger] links_after(
        i as int,
        a.0,
        particles@,
        params,
        cursor_dist,
        rest@,
        rest_readings@,
        k,
    ) == links_after(i as int, p, particles@, params, cursor_dist, found@, readings@, n + k) by {
        lemma_links_after_suffix(
            i as int,
            p,
            a.0,
            particles@,
            params,
            cursor_dist,
            found@,
            readings@,
            n,
            k,
        );
    }
    assert forall|k: int| 0 <= k < r.1@.len() implies #[trigger] r.1@[k] == (a.1@ + b.1@)[k] by {
        if k < n {
            let _ = a.1@[k];
            assert(first@[k] == found@[k]);
            assert(first_readings@[k] == readings@[k]);
        } else {
            let _ = b.1@[k - n];
            assert(rest@[k - n] == found@[k]);
            assert(rest_readings@[k - n] == readings@[k]);
        }
    }
    assert(r.1@ =~= a.1@ + b.1@);
}

/// A neighbour that overlaps a particle without being linked to it collides with it, at whatever
/// speed and in whatever direction the two move, and whichever neighbours came before; a linked one
/// neither collides nor bonds again.
pub proof fn law_unlinked_overlap_collides(
    i: usize,
    p: Particle,
    particles: Vec<Particle>,
    params: SimParams,
    cursor_dist: Single,
    found: Vec<u32>,
    readings: Vec<ContactReading>,
    r: (Particle, Vec<Contact>),
    n: int,
)
    requires
        found@.len() == readings@.len(),
        forall|k: int|
            0 <= k < found@.len() ==> #[trigger] found@[k] < particles@.len() && found@[k]
                <= i32::MAX,
        0 <= n < found@.len(),
        call_ensures(
            meet_neighbors,
            (i, &p, &particles, &params, cursor_dist, &found, &readings),
            r,
        ),
    ensures
        ({
            let c = found@[n];
            let m = readings@[n];
            let other = particles@[c as int];
            let seen = c != i && c < params.active_count && other.pos@[0].finite()
                && other.pos@[1].finite() && !num(0x3de7_3604).less(m.dist_sq);
            let linked = exists|k: int| 0 <= k < 6 && #[trigger] p.links@[k] == c;
            let met = exists|k: int| 0 <= k < n && #[trigger] found@[k] == c;
            &&& seen && !linked && !met && num(0x3727_c5ac).less(m.dist) && m.dist.less(m.conn)
                && num(0x3727_c5ac).less(m.weight_sum) ==> r.1@[n].collides
            &&& r.1@[n].collides ==> seen && !linked && num(0x3727_c5ac).less(m.dist)
                && m.dist.less(m.conn) && num(0x3727_c5ac).less(m.weight_sum)
            &&& linked ==> !r.1@[n].bonds
        }),
{
    let c = found@[n];
    let before = links_after(
        i as int,
        p,
        particles@,
        params,
        cursor_dist,
        found@,
        readings@,
        n,
    );
    let _ = r.1@[n];
    law_meeting_only_makes_bonds(
        i as int,
        p,
        particles@,
        params,
        cursor_dist,
        found@,
        readings@,
        n,
    );
    assert forall|k: int| 0 <= k < 6 && #[trigger] p.links@[k] == c implies before.contains(
        c as i32,
    ) by {
        assert(before[k] == c as i32);
    }
    assert forall|k: int| 0 <= k < before.len() && #[trigger] before[k] == c implies (exists|k: int|
        0 <= k < 6 && #[trigger] p.links@[k] == c) || (exists|k: int|
        0 <= k < n && #[trigger] found@[k] == c) by {
        lemma_links_come_from_neighbors(
            i as int,
            p,
            particles@,
            params,
            cursor_dist,
            found@,
            readings@,
            n,
            if 0 <= k < 6 {
                k
            } else {
                0
            },
        );
        let _ = p.links@[k];
    }
}

/// Readings that differ in the approach alone give the same collisions, bonds, spreading and pull,
/// and the same particle.
pub proof fn law_approach_decides_no_collision(
    i: usize,
    p: Particle,
    particles: Vec<Particle>,
    params: SimParams,
    cursor_dist: Single,
    found: Vec<u32>,
    readings: Vec<ContactReading>,
    others: Vec<ContactReading>,
    r: (Particle, Vec<Contact>),
    s: (Particle, Vec<Contact>),
    n: int,
)
    requires
        found@.len() == readings@.len(),
        found@.len() == others@.len(),
        forall|k: int|
            0 <= k < found@.len() ==> #[trigger] found@[k] < particles@.len() && found@[k]
                <= i32::MAX,
        forall|k: int|
            0 <= k < found@.len() ==> #[trigger] others@[k] == (ContactReading {
                approach: others@[k].approach,
                ..readings@[k]
            }),
        0 <= n < found@.len(),
        call_ensures(
            meet_neighbors,
            (i, &p, &particles, &params, cursor_dist, &found, &readings),
            r,
        ),
        call_ensures(
            meet_neighbors,
            (i, &p, &particles, &params, cursor_dist, &found, &others),
            s,
        ),
    ensures
        r.1@[n].collides == s.1@[n].collides,
        r.1@[n].bonds == s.1@[n].bonds,
        r.1@[n].spreads == s.1@[n].spreads,
        r.1@[n].pulls == s.1@[n].pulls,
        r.0.links@ == s.0.links@,
        r.0.pos == s.0.pos,
        r.0.vel == s.0.vel,
        r.0.charge == s.0.charge,
        r.0.angle == s.0.angle,
        r.0.temperature == s.0.temperature,
        r.0.mat_type == s.0.mat_type,
        r.0.inv_mass == s.0.inv_mass,
        r.0.grav_scale == s.0.grav_scale,
{
    let _ = r.1@[n];
    let _ = s.1@[n];
    let _ = others@[n];
    lemma_links_after_prefix(
        i as int,
        p,
        p,
        particles@,
        params,
        cursor_dist,
        found@,
        readings@,
        found@,
        others@,
        n,
    );
    lemma_links_after_prefix(
        i as int,
        p,
        p,
        particles@,
        params,
        cursor_dist,
        found@,
        readings@,
        found@,
        others@,
        found@.len() as int,
    );
}

/// A floating particle weighs one half in contacts, any other what its inverse mass says without
/// the sign; ports matter strictly between the two bonding distances; and a particle looks four
/// cells around, or two where it has no free slot and is not soft.
pub proof fn law_contact_measures(
    p: Particle,
    used: u32,
    softening: Single,
    m: ContactReading,
    weight: Single,
    radius: i32,
    close: bool,
)
    requires
        call_ensures(contact_weight, (&p,), weight),
        call_ensures(search_radius, (&p, used, softening), radius),
        call_ensures(at_bond_distance, (&m,), close),
    ensures
        p.grav_scale.less(num(0xba83_126f)) ==> weight.bits == 0x3f00_0000,
        !p.grav_scale.less(num(0xba83_126f)) ==> weight.bits == p.inv_mass.bits % 0x8000_0000,
        used < 6 || softening.less(p.temperature) ==> radius == 4,
        used >= 6 && !softening.less(p.temperature) ==> radius == 2,
        close == (m.bond_min.less(m.dist) && m.dist.less(m.bond_max)),
{
}

} // verus!
