//! The growth tool: particles near the cursor sprout new ones at their free ports. New particles
//! take their places, are linked to the particles around them, and to each other.
use vstd::prelude::*;
use crate::particle::{Particle, NO_LINK};
use crate::ports::{
    count_links, find_port, is_nearest_port, law_some_port_is_nearest, nearest_port, used_slots,
};
use crate::single::{num, Single};
use crate::spawn::{at_rest, room, room_for, seed};

verus! {

/// 100.0: above every angle, so that a parent may take any port.
pub const ANY_ANGLE: u32 = 0x42c8_0000;

/// 0.6: how far a port may be turned away from a particle that is not a parent.
pub const PORT_TOLERANCE: u32 = 0x3f19_999a;

/// 0.0001: particles closer than this are taken for one and not linked.
pub const COINCIDENT: u32 = 0x38d1_b717;

/// A free slot of an existing particle.
#[derive(Clone, Copy, Debug, PartialEq, Eq)]
pub struct Bud {
    pub particle: usize,
    pub slot: usize,
}

/// A place where a new particle will sprout, and the buds that lead there, in order.
pub struct Sprout {
    pub pos: [Single; 2],
    pub parents: Vec<Bud>,
}

/// What is measured between a new particle and another one: their distance, and for each port of
/// the new particle the angle between the port and the other one.
#[derive(Clone, Copy, Debug, PartialEq, Eq)]
pub struct GrowthReading {
    pub dist: Single,
    pub gaps: [Single; 6],
}

/// A link to be made on an existing particle: slot `slot` is to name particle `target`.
#[derive(Clone, Copy, Debug, PartialEq, Eq)]
pub struct LinkUpdate {
    pub particle: usize,
    pub slot: usize,
    pub target: u32,
}

/// The particle is there and the cursor reaches it.
pub open spec fn reached(p: Particle, dist_sq: Single, reach_sq: Single) -> bool {
    !p.removed() && dist_sq.at_most(reach_sq)
}

/// Some particle is reached.
pub open spec fn some_reached(ps: Seq<Particle>, dist_sq: Seq<Single>, reach_sq: Single) -> bool {
    exists|i: int| 0 <= i < ps.len() && reached(#[trigger] ps[i], dist_sq[i], reach_sq)
}

/// Some particle that is there stands closer than the threshold.
pub open spec fn some_too_close(ps: Seq<Particle>, gaps_sq: Seq<Single>, overlap_sq: Single) -> bool {
    exists|i: int|
        0 <= i < ps.len() && !(#[trigger] ps[i]).removed() && gaps_sq[i].less(overlap_sq)
}

/// The particle is there and not beyond the cursor's reach.
pub open spec fn sprouts(p: Particle, dist_sq: Single, reach_sq: Single) -> bool {
    !p.removed() && !reach_sq.less(dist_sq)
}

/// The free slots of a particle among its first `k`.
pub open spec fn buds_of(links: Seq<i32>, i: int, k: int) -> Seq<Bud>
    decreases k,
{
    if k <= 0 {
        seq![]
    } else if links[k - 1] == NO_LINK {
        buds_of(links, i, k - 1).push(Bud { particle: i as usize, slot: (k - 1) as usize })
    } else {
        buds_of(links, i, k - 1)
    }
}

/// The free slots of those of the first `n` particles that sprout.
pub open spec fn buds(ps: Seq<Particle>, dist_sq: Seq<Single>, reach_sq: Single, n: int) -> Seq<Bud>
    decreases n,
{
    if n <= 0 {
        seq![]
    } else if sprouts(ps[n - 1], dist_sq[n - 1], reach_sq) {
        buds(ps, dist_sq, reach_sq, n - 1) + buds_of(ps[n - 1].links@, n - 1, 6)
    } else {
        buds(ps, dist_sq, reach_sq, n - 1)
    }
}

/// A bud is a free slot of an existing particle.
pub open spec fn bud_open(ps: Seq<Particle>, b: Bud) -> bool {
    &&& b.particle < ps.len()
    &&& b.slot < 6
    &&& ps[b.particle as int].links@[b.slot as int] == NO_LINK
}

/// Every sprout has parents, and their slots are free.
pub open spec fn sprouts_sound(ps: Seq<Particle>, sprouts: Seq<Sprout>) -> bool {
    forall|c: int|
        0 <= c < sprouts.len() ==> {
            &&& (#[trigger] sprouts[c]).parents@.len() > 0
            &&& forall|b: int|
                0 <= b < sprouts[c].parents@.len() ==> bud_open(
                    ps,
                    #[trigger] sprouts[c].parents@[b],
                )
        }
}

/// `c` is the first sprout closer than the threshold.
pub open spec fn first_close(gaps_sq: Seq<Single>, overlap_sq: Single, c: int) -> bool {
    &&& 0 <= c < gaps_sq.len()
    &&& gaps_sq[c].less(overlap_sq)
    &&& forall|d: int| 0 <= d < c ==> !(#[trigger] gaps_sq[d]).less(overlap_sq)
}

/// `to` are the sprouts after a bud that leads to `pos` was added: it joins the first sprout closer
/// than the threshold, or begins a new one.
pub open spec fn joined(
    from: Seq<Sprout>,
    pos: [Single; 2],
    bud: Bud,
    gaps_sq: Seq<Single>,
    overlap_sq: Single,
    to: Seq<Sprout>,
) -> bool {
    &&& forall|c: int| #[trigger]
        first_close(gaps_sq, overlap_sq, c) ==> {
            &&& to.len() == from.len()
            &&& to[c].pos == from[c].pos
            &&& to[c].parents@ == from[c].parents@.push(bud)
            &&& forall|d: int| 0 <= d < from.len() && d != c ==> to[d] == from[d]
        }
    &&& (forall|c: int| 0 <= c < gaps_sq.len() ==> !(#[trigger] gaps_sq[c]).less(overlap_sq)) ==> {
        &&& to.len() == from.len() + 1
        &&& to.last().pos == pos
        &&& to.last().parents@ == seq![bud]
        &&& forall|d: int| 0 <= d < from.len() ==> to[d] == from[d]
    }
}

/// `s` is the first free slot.
pub open spec fn first_free(links: Seq<i32>, s: int) -> bool {
    &&& 0 <= s < 6
    &&& links[s] == NO_LINK
    &&& forall|t: int| 0 <= t < s ==> #[trigger] links[t] != NO_LINK
}

/// The particle is one of the parents.
pub open spec fn is_parent(parents: Seq<Bud>, e: int) -> bool {
    exists|b: int| 0 <= b < parents.len() && (#[trigger] parents[b]).particle == e
}

/// Links and updates after the first `n` parents have been tied, each to the port nearest to it.
pub open spec fn tied_to_parents(
    parents: Seq<Bud>,
    readings: Seq<GrowthReading>,
    target: u32,
    n: int,
) -> (Seq<i32>, Seq<LinkUpdate>)
    decreases n,
{
    if n <= 0 {
        (seq![NO_LINK, NO_LINK, NO_LINK, NO_LINK, NO_LINK, NO_LINK], seq![])
    } else {
        let (links, updates) = tied_to_parents(parents, readings, target, n - 1);
        let b = parents[n - 1];
        match nearest_port(links, readings[b.particle as int].gaps@, num(ANY_ANGLE)) {
            Some(k) => (
                links.update(k, b.particle as i32),
                updates.push(LinkUpdate { particle: b.particle, slot: b.slot, target }),
            ),
            None => (links, updates),
        }
    }
}

/// The particle is there, no parent, and at bonding distance.
pub open spec fn bondable_bystander(
    ps: Seq<Particle>,
    parents: Seq<Bud>,
    readings: Seq<GrowthReading>,
    limit: Single,
    e: int,
) -> bool {
    &&& !ps[e].removed()
    &&& !is_parent(parents, e)
    &&& readings[e].dist.less(limit)
    &&& num(COINCIDENT).less(readings[e].dist)
}

/// Links and updates after the first `n` existing particles have been considered as bystanders:
/// while a port is left, one at bonding distance is tied to the nearest port, if it has a free
/// slot of its own.
pub open spec fn tied_to_bystanders(
    ps: Seq<Particle>,
    parents: Seq<Bud>,
    readings: Seq<GrowthReading>,
    limit: Single,
    target: u32,
    n: int,
) -> (Seq<i32>, Seq<LinkUpdate>)
    decreases n,
{
    if n <= 0 {
        tied_to_parents(
            parents,
            readings,
            target,
            if parents.len() < 6 {
                parents.len() as int
            } else {
                6
            },
        )
    } else {
        let (links, updates) = tied_to_bystanders(ps, parents, readings, limit, target, n - 1);
        let e = n - 1;
        if updates.len() < 6 && bondable_bystander(ps, parents, readings, limit, e) {
            match nearest_port(links, readings[e].gaps@, num(PORT_TOLERANCE)) {
                Some(k) => if exists|s: int| first_free(ps[e].links@, s) {
                    let s = choose|s: int| first_free(ps[e].links@, s);
                    (
                        links.update(k, e as i32),
                        updates.push(
                            LinkUpdate { particle: e as usize, slot: s as usize, target },
                        ),
                    )
                } else {
                    (links, updates)
                },
                None => (links, updates),
            }
        } else {
            (links, updates)
        }
    }
}

/// Whether some particle that is there is reached by the cursor.
pub fn has_nearby(existing: &Vec<Particle>, dist_sq: &Vec<Single>, reach_sq: Single) -> (r: bool)
    requires
        dist_sq@.len() == existing@.len(),
    ensures
        r == exists|i: int|
            0 <= i < existing@.len() && reached(#[trigger] existing@[i], dist_sq@[i], reach_sq),
        r == some_reached(existing@, dist_sq@, reach_sq),
{
    let mut i: usize = 0;
    while i < existing.len()
        invariant
            i <= existing@.len(),
            dist_sq@.len() == existing@.len(),
            forall|j: int|
                0 <= j < i ==> !reached(#[trigger] existing@[j], dist_sq@[j], reach_sq),
        decreases existing@.len() - i,
    {
        if !existing[i].is_removed() && dist_sq[i].le(reach_sq) {
            assert(reached(existing@[i as int], dist_sq@[i as int], reach_sq));
            return true;
        }
        i += 1;
    }
    false
}

/// The free slots of the particles that sprout, in order.
pub fn find_buds(existing: &Vec<Particle>, dist_sq: &Vec<Single>, reach_sq: Single) -> (r: Vec<Bud>)
    requires
        dist_sq@.len() == existing@.len(),
    ensures
        r@ == buds(existing@, dist_sq@, reach_sq, existing@.len() as int),
{
    let mut r: Vec<Bud> = Vec::new();
    let mut i: usize = 0;
    while i < existing.len()
        invariant
            i <= existing@.len(),
            dist_sq@.len() == existing@.len(),
            r@ == buds(existing@, dist_sq@, reach_sq, i as int),
        decreases existing@.len() - i,
    {
        if !existing[i].is_removed() && !dist_sq[i].gt(reach_sq) {
            let ghost before = r@;
            let mut k: usize = 0;
            assert(before + buds_of(existing@[i as int].links@, i as int, 0) =~= before);
            while k < 6
                invariant
                    k <= 6,
                    i < existing@.len(),
                    r@ == before + buds_of(existing@[i as int].links@, i as int, k as int),
                decreases 6 - k,
            {
                if existing[i].links[k] == NO_LINK {
                    r.push(Bud { particle: i, slot: k });
                }
                assert(r@ =~= before + buds_of(existing@[i as int].links@, i as int, k + 1));
                k += 1;
            }
        }
        i += 1;
    }
    r
}

/// Whether a place is taken: a particle that is there stands closer to it than the threshold.
pub fn is_occupied(existing: &Vec<Particle>, gaps_sq: &Vec<Single>, overlap_sq: Single) -> (r: bool)
    requires
        gaps_sq@.len() == existing@.len(),
    ensures
        r == exists|i: int|
            0 <= i < existing@.len() && !(#[trigger] existing@[i]).removed() && gaps_sq@[i].less(
                overlap_sq,
            ),
        r == some_too_close(existing@, gaps_sq@, overlap_sq),
{
    let mut i: usize = 0;
    while i < existing.len()
        invariant
            i <= existing@.len(),
            gaps_sq@.len() == existing@.len(),
            forall|j: int|
                0 <= j < i ==> (#[trigger] existing@[j]).removed() || !gaps_sq@[j].less(overlap_sq),
        decreases existing@.len() - i,
    {
        if !existing[i].is_removed() && gaps_sq[i].lt(overlap_sq) {
            assert(!existing@[i as int].removed());
            return true;
        }
        i += 1;
    }
    false
}

/// Adds a bud that leads to `pos`. It joins the first sprout closer than the threshold;
/// `gaps_sq` are the squared distances to the sprouts so far. Where there is none, a new sprout
/// begins.
pub fn join_sprout(
    sprouts: &mut Vec<Sprout>,
    pos: [Single; 2],
    bud: Bud,
    gaps_sq: &Vec<Single>,
    overlap_sq: Single,
)
    requires
        gaps_sq@.len() == old(sprouts)@.len(),
    ensures
        joined(old(sprouts)@, pos, bud, gaps_sq@, overlap_sq, final(sprouts)@),
{
    let mut c: usize = 0;
    while c < sprouts.len()
        invariant
            c <= sprouts@.len(),
            *sprouts == *old(sprouts),
            gaps_sq@.len() == sprouts@.len(),
            forall|d: int| 0 <= d < c ==> !(#[trigger] gaps_sq@[d]).less(overlap_sq),
        decreases sprouts@.len() - c,
    {
        if gaps_sq[c].lt(overlap_sq) {
            assert(first_close(gaps_sq@, overlap_sq, c as int));
            sprouts[c].parents.push(bud);
            return;
        }
        c += 1;
    }
    let mut parents: Vec<Bud> = Vec::new();
    parents.push(bud);
    assert(parents@ =~= seq![bud]);
    sprouts.push(Sprout { pos, parents });
}

/// How many of the sprouts become particles.
pub fn sprout_count(sprouts: &Vec<Sprout>, active: u32, capacity: u32) -> (r: usize)
    ensures
        r == if sprouts@.len() <= room_for(active, capacity) {
            sprouts@.len() as int
        } else {
            room_for(active, capacity)
        },
{
    let limit: u32 = room(active, capacity);
    if sprouts.len() as u64 <= limit as u64 {
        sprouts.len()
    } else {
        limit as usize
    }
}

/// The first free slot.
pub fn free_slot(links: &[i32; 6]) -> (r: Option<usize>)
    ensures
        match r {
            Some(s) => first_free(links@, s as int),
            None => !links@.contains(NO_LINK),
        },
{
    let mut s: usize = 0;
    while s < 6
        invariant
            s <= 6,
            forall|t: int| 0 <= t < s ==> #[trigger] links@[t] != NO_LINK,
        decreases 6 - s,
    {
        if links[s] == NO_LINK {
            return Some(s);
        }
        s += 1;
    }
    None
}

/// Whether a particle is one of the parents.
fn has_parent(parents: &Vec<Bud>, e: usize) -> (r: bool)
    ensures
        r == is_parent(parents@, e as int),
{
    let mut b: usize = 0;
    while b < parents.len()
        invariant
            b <= parents@.len(),
            forall|c: int| 0 <= c < b ==> (#[trigger] parents@[c]).particle != e,
        decreases parents@.len() - b,
    {
        if parents[b].particle == e {
            assert(parents@[b as int].particle == e);
            return true;
        }
        b += 1;
    }
    false
}

/// Makes the new particle of a sprout, turned like its first parent and tied to its parents and
/// to bystanders, together with the links that the others need in return. `target` is its number
/// and `limit` the bonding distance.
pub fn grow_one(
    existing: &Vec<Particle>,
    sprout: &Sprout,
    readings: &Vec<GrowthReading>,
    limit: Single,
    target: u32,
    mat: u32,
    inv_mass: Single,
    grav_scale: Single,
) -> (r: (Particle, Vec<LinkUpdate>))
    requires
        existing@.len() <= i32::MAX,
        readings@.len() == existing@.len(),
        sprout.parents@.len() > 0,
        forall|b: int|
            0 <= b < sprout.parents@.len() ==> (#[trigger] sprout.parents@[b]).particle
                < existing@.len(),
    ensures
        (r.0.links@, r.1@) == tied_to_bystanders(
            existing@,
            sprout.parents@,
            readings@,
            limit,
            target,
            existing@.len() as int,
        ),
        r.0.angle == existing@[sprout.parents@[0].particle as int].angle,
        exists|rest: Particle|
            at_rest(rest, sprout.pos, mat, inv_mass, grav_scale) && r.0 == (Particle {
                links: r.0.links,
                angle: r.0.angle,
                ..rest
            }),
{
    let mut p: Particle = seed(sprout.pos, mat, inv_mass, grav_scale);
    let ghost rest = p;
    let mut updates: Vec<LinkUpdate> = Vec::new();
    let known: usize = if sprout.parents.len() < 6 {
        sprout.parents.len()
    } else {
        6
    };
    let mut n: usize = 0;
    while n < known
        invariant
            n <= known,
            known == if sprout.parents@.len() < 6 {
                sprout.parents@.len() as int
            } else {
                6
            },
            existing@.len() <= i32::MAX,
            readings@.len() == existing@.len(),
            forall|b: int|
                0 <= b < sprout.parents@.len() ==> (#[trigger] sprout.parents@[b]).particle
                    < existing@.len(),
            (p.links@, updates@) == tied_to_parents(sprout.parents@, readings@, target, n as int),
            p == (Particle { links: p.links, ..rest }),
        decreases known - n,
    {
        let b: Bud = sprout.parents[n];
        match find_port(
            &p.links,
            &readings[b.particle].gaps,
            Single::from_bits(ANY_ANGLE),
        ) {
            Some(k) => {
                let ghost links = p.links@;
                p.links[k] = b.particle as i32;
                assert(p.links@ =~= links.update(k as int, b.particle as i32));
                updates.push(LinkUpdate { particle: b.particle, slot: b.slot, target });
            },
            None => {},
        }
        n += 1;
    }
    let mut e: usize = 0;
    while e < existing.len()
        invariant
            e <= existing@.len(),
            existing@.len() <= i32::MAX,
            readings@.len() == existing@.len(),
            (p.links@, updates@) == tied_to_bystanders(
                existing@,
                sprout.parents@,
                readings@,
                limit,
                target,
                e as int,
            ),
            p == (Particle { links: p.links, ..rest }),
        decreases existing@.len() - e,
    {
        if updates.len() < 6 && !existing[e].is_removed() && !has_parent(&sprout.parents, e)
            && readings[e].dist.lt(limit) && readings[e].dist.gt(Single::from_bits(COINCIDENT)) {
            match find_port(&p.links, &readings[e].gaps, Single::from_bits(PORT_TOLERANCE)) {
                Some(k) => match free_slot(&existing[e].links) {
                    Some(s) => {
                        let ghost links = p.links@;
                        proof {
                            let own = existing@[e as int].links@;
                            assert(first_free(own, s as int));
                            let other = choose|t: int| first_free(own, t);
                            assert(first_free(own, other));
                            lemma_first_free_is_unique(own, s as int, other);
                        }
                        p.links[k] = e as i32;
                        assert(p.links@ =~= links.update(k as int, e as i32));
                        updates.push(LinkUpdate { particle: e, slot: s, target });
                    },
                    None => {},
                },
                None => {},
            }
        }
        e += 1;
    }
    p.angle = existing[sprout.parents[0].particle].angle;
    (p, updates)
}

proof fn lemma_first_free_is_unique(links: Seq<i32>, a: int, b: int)
    requires
        first_free(links, a),
        first_free(links, b),
    ensures
        a == b,
{
    if a < b {
        assert(links[a] != NO_LINK);
    } else if b < a {
        assert(links[b] != NO_LINK);
    }
}

/// What is measured between two new particles: their distance, and for each port of the one the
/// angle between the port and the other one.
#[derive(Clone, Copy, Debug, PartialEq, Eq)]
pub struct PairReading {
    pub dist: Single,
    pub gaps_first: [Single; 6],
    pub gaps_second: [Single; 6],
}

/// The ports by which two new particles are to be tied, if they are.
pub open spec fn pair_ports(
    first: Seq<i32>,
    second: Seq<i32>,
    m: PairReading,
    limit: Single,
) -> Option<(int, int)> {
    if m.dist.less(limit) && num(COINCIDENT).less(m.dist) {
        match (
            nearest_port(first, m.gaps_first@, num(PORT_TOLERANCE)),
            nearest_port(second, m.gaps_second@, num(PORT_TOLERANCE)),
        ) {
            (Some(a), Some(b)) => Some((a, b)),
            _ => None,
        }
    } else {
        None
    }
}

/// `to` is `from` after new particles `i` and `j` were tied, or not, as their ports allow.
pub open spec fn pair_tied(
    from: Seq<Particle>,
    i: int,
    j: int,
    m: PairReading,
    limit: Single,
    start: int,
    to: Seq<Particle>,
) -> bool {
    match pair_ports(from[i].links@, from[j].links@, m, limit) {
        Some((a, b)) => {
            &&& to.len() == from.len()
            &&& to[i].links@ == from[i].links@.update(a, (start + j) as i32)
            &&& to[j].links@ == from[j].links@.update(b, (start + i) as i32)
            &&& forall|e: int| 0 <= e < to.len() ==> (#[trigger] to[e]).same_but_links(from[e])
            &&& forall|e: int| 0 <= e < to.len() && e != i && e != j ==> #[trigger] to[e] == from[e]
        },
        None => to == from,
    }
}

/// Ties two new particles at bonding distance to each other, if both have a port that is turned
/// towards the other. New particles are numbered from `start`.
pub fn tie_pair(
    fresh: &mut Vec<Particle>,
    i: usize,
    j: usize,
    m: &PairReading,
    limit: Single,
    start: u32,
)
    requires
        i < j < old(fresh)@.len(),
        start + old(fresh)@.len() <= i32::MAX,
    ensures
        pair_tied(old(fresh)@, i as int, j as int, *m, limit, start as int, final(fresh)@),
{
    if !(m.dist.lt(limit) && m.dist.gt(Single::from_bits(COINCIDENT))) {
        return;
    }
    let mut p: Particle = fresh[i];
    let mut q: Particle = fresh[j];
    let a: Option<usize> = find_port(&p.links, &m.gaps_first, Single::from_bits(PORT_TOLERANCE));
    let b: Option<usize> = find_port(&q.links, &m.gaps_second, Single::from_bits(PORT_TOLERANCE));
    match (a, b) {
        (Some(a), Some(b)) => {
            p.links[a] = (start + j as u32) as i32;
            q.links[b] = (start + i as u32) as i32;
            assert(p.links@ =~= old(fresh)@[i as int].links@.update(a as int, (start + j) as i32));
            assert(q.links@ =~= old(fresh)@[j as int].links@.update(b as int, (start + i) as i32));
            fresh[i] = p;
            fresh[j] = q;
        },
        _ => {},
    }
}

/// The links of particle `e` after the first `n` updates.
pub open spec fn updated_links(links: Seq<i32>, updates: Seq<LinkUpdate>, e: int, n: int) -> Seq<i32>
    decreases n,
{
    if n <= 0 {
        links
    } else {
        let before = updated_links(links, updates, e, n - 1);
        let u = updates[n - 1];
        if u.particle == e {
            before.update(u.slot as int, u.target as i32)
        } else {
            before
        }
    }
}

/// The existing particles after the updates, made in their order.
pub fn apply_updates(existing: &Vec<Particle>, updates: &Vec<LinkUpdate>) -> (r: Vec<Particle>)
    requires
        forall|u: int|
            0 <= u < updates@.len() ==> {
                &&& (#[trigger] updates@[u]).particle < existing@.len()
                &&& updates@[u].slot < 6
                &&& updates@[u].target <= i32::MAX
            },
    ensures
        r@.len() == existing@.len(),
        forall|e: int|
            0 <= e < r@.len() ==> {
                &&& (#[trigger] r@[e]).same_but_links(existing@[e])
                &&& r@[e].links@ == updated_links(
                    existing@[e].links@,
                    updates@,
                    e,
                    updates@.len() as int,
                )
            },
{
    let mut r: Vec<Particle> = Vec::new();
    let mut i: usize = 0;
    while i < existing.len()
        invariant
            i <= existing@.len(),
            r@ == existing@.subrange(0, i as int),
        decreases existing@.len() - i,
    {
        r.push(existing[i]);
        assert(r@ =~= existing@.subrange(0, i + 1));
        i += 1;
    }
    let mut n: usize = 0;
    while n < updates.len()
        invariant
            n <= updates@.len(),
            r@.len() == existing@.len(),
            forall|u: int|
                0 <= u < updates@.len() ==> {
                    &&& (#[trigger] updates@[u]).particle < existing@.len()
                    &&& updates@[u].slot < 6
                    &&& updates@[u].target <= i32::MAX
                },
            forall|e: int|
                0 <= e < r@.len() ==> {
                    &&& (#[trigger] r@[e]).same_but_links(existing@[e])
                    &&& r@[e].links@ == updated_links(existing@[e].links@, updates@, e, n as int)
                },
        decreases updates@.len() - n,
    {
        let u: LinkUpdate = updates[n];
        let mut p: Particle = r[u.particle];
        let ghost links = p.links@;
        p.links[u.slot] = u.target as i32;
        assert(p.links@ =~= links.update(u.slot as int, u.target as i32));
        r[u.particle] = p;
        n += 1;
    }
    r
}

/// A bud is a free slot of a particle that sprouts, and no slot is found twice.
pub proof fn law_buds_are_open_and_distinct(
    ps: Seq<Particle>,
    dist_sq: Seq<Single>,
    reach_sq: Single,
    a: int,
    b: int,
)
    requires
        ps.len() <= usize::MAX,
        0 <= a < b < buds(ps, dist_sq, reach_sq, ps.len() as int).len(),
    ensures
        ({
            let found = buds(ps, dist_sq, reach_sq, ps.len() as int);
            &&& bud_open(ps, found[a])
            &&& bud_open(ps, found[b])
            &&& found[a] != found[b]
        }),
{
    lemma_buds(ps, dist_sq, reach_sq, ps.len() as int);
    let found = buds(ps, dist_sq, reach_sq, ps.len() as int);
    assert(found[a].particle < found[b].particle || found[a].slot < found[b].slot);
}

proof fn lemma_buds_of(links: Seq<i32>, i: int, k: int)
    requires
        0 <= k <= 6,
        0 <= i <= usize::MAX,
    ensures
        forall|a: int|
            0 <= a < buds_of(links, i, k).len() ==> {
                let b = #[trigger] buds_of(links, i, k)[a];
                b.particle == i && b.slot < k && links[b.slot as int] == NO_LINK
            },
        forall|a: int, b: int|
            0 <= a < b < buds_of(links, i, k).len() ==> (#[trigger] buds_of(links, i, k)[a]).slot
                < (#[trigger] buds_of(links, i, k)[b]).slot,
    decreases k,
{
    if k > 0 {
        lemma_buds_of(links, i, k - 1);
        let before = buds_of(links, i, k - 1);
        let all = buds_of(links, i, k);
        assert forall|a: int| 0 <= a < all.len() implies ({
            let b = #[trigger] all[a];
            b.particle == i && b.slot < k && links[b.slot as int] == NO_LINK
        }) by {
            if a < before.len() {
                assert(all[a] == before[a]);
            }
        }
        assert forall|a: int, b: int| 0 <= a < b < all.len() implies (#[trigger] all[a]).slot < (
        #[trigger] all[b]).slot by {
            assert(all[a] == before[a]);
            if b < before.len() {
                assert(all[b] == before[b]);
            }
        }
    }
}

proof fn lemma_buds(ps: Seq<Particle>, dist_sq: Seq<Single>, reach_sq: Single, n: int)
    requires
        0 <= n <= ps.len() <= usize::MAX,
    ensures
        forall|a: int|
            0 <= a < buds(ps, dist_sq, reach_sq, n).len() ==> {
                let b = #[trigger] buds(ps, dist_sq, reach_sq, n)[a];
                b.particle < n && bud_open(ps, b)
            },
        forall|a: int, b: int|
            0 <= a < b < buds(ps, dist_sq, reach_sq, n).len() ==> {
                let x = #[trigger] buds(ps, dist_sq, reach_sq, n)[a];
                let y = #[trigger] buds(ps, dist_sq, reach_sq, n)[b];
                x.particle < y.particle || x.particle == y.particle && x.slot < y.slot
            },
    decreases n,
{
    if n > 0 {
        lemma_buds(ps, dist_sq, reach_sq, n - 1);
        lemma_buds_of(ps[n - 1].links@, n - 1, 6);
        let before = buds(ps, dist_sq, reach_sq, n - 1);
        let own = buds_of(ps[n - 1].links@, n - 1, 6);
        let all = buds(ps, dist_sq, reach_sq, n);
        assert forall|a: int| 0 <= a < all.len() implies ({
            let b = #[trigger] all[a];
            b.particle < n && bud_open(ps, b)
        }) by {
            if a < before.len() {
                assert(all[a] == before[a]);
            } else {
                assert(all[a] == own[a - before.len()]);
            }
        }
        assert forall|a: int, b: int| 0 <= a < b < all.len() implies ({
            let x = #[trigger] all[a];
            let y = #[trigger] all[b];
            x.particle < y.particle || x.particle == y.particle && x.slot < y.slot
        }) by {
            if a < before.len() {
                assert(all[a] == before[a]);
            } else {
                assert(all[a] == own[a - before.len()]);
            }
            if b < before.len() {
                assert(all[b] == before[b]);
            } else {
                assert(all[b] == own[b - before.len()]);
            }
        }
    }
}

/// Where a sprout is closer than the threshold, there is a first one.
proof fn lemma_first_close(gaps_sq: Seq<Single>, overlap_sq: Single, n: int) -> (c: int)
    requires
        0 <= n < gaps_sq.len(),
        gaps_sq[n].less(overlap_sq),
    ensures
        first_close(gaps_sq, overlap_sq, c),
    decreases n,
{
    if exists|d: int| 0 <= d < n && (#[trigger] gaps_sq[d]).less(overlap_sq) {
        let d = choose|d: int| 0 <= d < n && (#[trigger] gaps_sq[d]).less(overlap_sq);
        lemma_first_close(gaps_sq, overlap_sq, d)
    } else {
        n
    }
}

/// A bud joins a sprout that is there, or begins a new one.
proof fn lemma_joined_where(
    from: Seq<Sprout>,
    pos: [Single; 2],
    bud: Bud,
    gaps_sq: Seq<Single>,
    overlap_sq: Single,
    to: Seq<Sprout>,
)
    requires
        joined(from, pos, bud, gaps_sq, overlap_sq, to),
        gaps_sq.len() == from.len(),
    ensures
        (exists|c: int| #[trigger] first_close(gaps_sq, overlap_sq, c)) || to.len() == from.len() + 1
            && forall|c: int|
            0 <= c < gaps_sq.len() ==> !(#[trigger] gaps_sq[c]).less(overlap_sq),
{
    if exists|n: int| 0 <= n < gaps_sq.len() && (#[trigger] gaps_sq[n]).less(overlap_sq) {
        let n = choose|n: int| 0 <= n < gaps_sq.len() && (#[trigger] gaps_sq[n]).less(overlap_sq);
        let c = lemma_first_close(gaps_sq, overlap_sq, n);
        assert(first_close(gaps_sq, overlap_sq, c));
    }
}

/// Joining keeps the sprouts sound: each has parents, and their slots are free.
pub proof fn law_joining_keeps_sprouts_sound(
    ps: Seq<Particle>,
    from: Seq<Sprout>,
    pos: [Single; 2],
    bud: Bud,
    gaps_sq: Seq<Single>,
    overlap_sq: Single,
    to: Seq<Sprout>,
)
    requires
        sprouts_sound(ps, from),
        bud_open(ps, bud),
        gaps_sq.len() == from.len(),
        joined(from, pos, bud, gaps_sq, overlap_sq, to),
    ensures
        sprouts_sound(ps, to),
{
    lemma_joined_where(from, pos, bud, gaps_sq, overlap_sq, to);
    assert forall|c: int| 0 <= c < to.len() implies {
        &&& (#[trigger] to[c]).parents@.len() > 0
        &&& forall|b: int| 0 <= b < to[c].parents@.len() ==> bud_open(ps, #[trigger] to[c].parents@[b])
    } by {
        if c < from.len() {
            let _ = from[c].parents@.len();
            assert(forall|b: int|
                0 <= b < from[c].parents@.len() ==> bud_open(ps, #[trigger] from[c].parents@[b]));
        }
    }
}

/// No two sprouts are closer than the threshold, by the given distance.
pub open spec fn sprouts_apart(
    sprouts: Seq<Sprout>,
    dist_sq: spec_fn([Single; 2], [Single; 2]) -> Single,
    overlap_sq: Single,
) -> bool {
    forall|c: int, d: int|
        0 <= c < sprouts.len() && 0 <= d < sprouts.len() && c != d ==> !dist_sq(
            (#[trigger] sprouts[c]).pos,
            (#[trigger] sprouts[d]).pos,
        ).less(overlap_sq)
}

/// No sprout is closer than the threshold to a particle that is there, by the given distance.
pub open spec fn sprouts_clear(
    ps: Seq<Particle>,
    sprouts: Seq<Sprout>,
    dist_sq: spec_fn([Single; 2], [Single; 2]) -> Single,
    overlap_sq: Single,
) -> bool {
    forall|i: int, c: int|
        0 <= i < ps.len() && 0 <= c < sprouts.len() && !ps[i].removed() ==> !dist_sq(
            (#[trigger] ps[i]).pos,
            (#[trigger] sprouts[c]).pos,
        ).less(overlap_sq)
}

/// Growth keeps its spacing, for every distance that is the same seen from both ends: where the
/// sprouts are apart from each other and from the particles that are there, they are so after a
/// bud was added that leads to a place which no particle takes.
pub proof fn law_sprouts_keep_apart(
    ps: Seq<Particle>,
    from: Seq<Sprout>,
    pos: [Single; 2],
    bud: Bud,
    gaps_sq: Seq<Single>,
    overlap_sq: Single,
    to: Seq<Sprout>,
    dist_sq: spec_fn([Single; 2], [Single; 2]) -> Single,
)
    requires
        forall|a: [Single; 2], b: [Single; 2]| #[trigger] dist_sq(a, b) == dist_sq(b, a),
        gaps_sq.len() == from.len(),
        forall|c: int| 0 <= c < from.len() ==> #[trigger] gaps_sq[c] == dist_sq(from[c].pos, pos),
        forall|i: int|
            0 <= i < ps.len() && !(#[trigger] ps[i]).removed() ==> !dist_sq(ps[i].pos, pos).less(
                overlap_sq,
            ),
        joined(from, pos, bud, gaps_sq, overlap_sq, to),
        sprouts_apart(from, dist_sq, overlap_sq),
        sprouts_clear(ps, from, dist_sq, overlap_sq),
    ensures
        sprouts_apart(to, dist_sq, overlap_sq),
        sprouts_clear(ps, to, dist_sq, overlap_sq),
{
    lemma_joined_where(from, pos, bud, gaps_sq, overlap_sq, to);
    assert forall|c: int| 0 <= c < to.len() implies (#[trigger] to[c]).pos == if c < from.len() {
        from[c].pos
    } else {
        pos
    } by {}
    assert forall|c: int, d: int| 0 <= c < to.len() && 0 <= d < to.len() && c != d implies !dist_sq(
        (#[trigger] to[c]).pos,
        (#[trigger] to[d]).pos,
    ).less(overlap_sq) by {
        if c < from.len() && d < from.len() {
            assert(from[c].pos == to[c].pos && from[d].pos == to[d].pos);
        } else if c < from.len() {
            assert(gaps_sq[c] == dist_sq(from[c].pos, pos));
        } else {
            assert(gaps_sq[d] == dist_sq(from[d].pos, pos));
            assert(dist_sq(pos, from[d].pos) == dist_sq(from[d].pos, pos));
        }
    }
    assert forall|i: int, c: int|
        0 <= i < ps.len() && 0 <= c < to.len() && !ps[i].removed() implies !dist_sq(
        (#[trigger] ps[i]).pos,
        (#[trigger] to[c]).pos,
    ).less(overlap_sq) by {
        if c < from.len() {
            assert(from[c].pos == to[c].pos);
        }
    }
}

/// Links and updates of a new particle go together.
pub open spec fn ties_agree(
    ps: Seq<Particle>,
    links: Seq<i32>,
    updates: Seq<LinkUpdate>,
    target: u32,
) -> bool {
    &&& links.len() == 6
    &&& forall|k: int|
        0 <= k < 6 && #[trigger] links[k] != NO_LINK ==> exists|u: int|
            0 <= u < updates.len() && (#[trigger] updates[u]).particle == links[k]
    &&& forall|u: int|
        0 <= u < updates.len() ==> {
            &&& (#[trigger] updates[u]).target == target
            &&& links.contains(updates[u].particle as i32)
            &&& bud_open(ps, Bud { particle: updates[u].particle, slot: updates[u].slot })
        }
}

proof fn lemma_tie(
    ps: Seq<Particle>,
    links: Seq<i32>,
    updates: Seq<LinkUpdate>,
    k: int,
    u: LinkUpdate,
)
    requires
        ties_agree(ps, links, updates, u.target),
        0 <= k < 6,
        links[k] == NO_LINK,
        ps.len() <= i32::MAX,
        bud_open(ps, Bud { particle: u.particle, slot: u.slot }),
    ensures
        ties_agree(ps, links.update(k, u.particle as i32), updates.push(u), u.target),
{
    let more = links.update(k, u.particle as i32);
    let all = updates.push(u);
    assert forall|m: int| 0 <= m < 6 && #[trigger] more[m] != NO_LINK implies exists|v: int|
        0 <= v < all.len() && (#[trigger] all[v]).particle == more[m] by {
        if m == k {
            assert(all[updates.len() as int] == u);
        } else {
            let v = choose|v: int|
                0 <= v < updates.len() && (#[trigger] updates[v]).particle == links[m];
            assert(all[v] == updates[v]);
        }
    }
    assert forall|v: int| 0 <= v < all.len() implies {
        &&& (#[trigger] all[v]).target == u.target
        &&& more.contains(all[v].particle as i32)
        &&& bud_open(ps, Bud { particle: all[v].particle, slot: all[v].slot })
    } by {
        if v < updates.len() {
            assert(all[v] == updates[v]);
            let m = choose|m: int| 0 <= m < 6 && links[m] == updates[v].particle as i32;
            assert(more[m] == links[m]);
        } else {
            assert(more[k] == u.particle as i32);
        }
    }
}

/// A new particle and the updates made for it agree: each of its links names a particle that is
/// to link back, each update answers one of its links, and each takes a slot that was free.
pub proof fn law_growth_ties_both_ways(
    ps: Seq<Particle>,
    parents: Seq<Bud>,
    readings: Seq<GrowthReading>,
    limit: Single,
    target: u32,
    n: int,
)
    requires
        ps.len() <= i32::MAX,
        readings.len() == ps.len(),
        0 <= n <= ps.len(),
        forall|b: int| 0 <= b < parents.len() ==> bud_open(ps, #[trigger] parents[b]),
    ensures
        ({
            let (links, updates) = tied_to_bystanders(ps, parents, readings, limit, target, n);
            ties_agree(ps, links, updates, target)
        }),
    decreases n,
{
    if n <= 0 {
        lemma_parent_ties(
            ps,
            parents,
            readings,
            target,
            if parents.len() < 6 {
                parents.len() as int
            } else {
                6
            },
        );
    } else {
        law_growth_ties_both_ways(ps, parents, readings, limit, target, n - 1);
        let (links, updates) = tied_to_bystanders(ps, parents, readings, limit, target, n - 1);
        let e = n - 1;
        match nearest_port(links, readings[e].gaps@, num(PORT_TOLERANCE)) {
            Some(k) => {
                if exists|s: int| first_free(ps[e].links@, s) {
                    let s = choose|s: int| first_free(ps[e].links@, s);
                    lemma_tie(
                        ps,
                        links,
                        updates,
                        k,
                        LinkUpdate { particle: e as usize, slot: s as usize, target },
                    );
                }
            },
            None => {},
        }
    }
}

proof fn lemma_parent_ties(
    ps: Seq<Particle>,
    parents: Seq<Bud>,
    readings: Seq<GrowthReading>,
    target: u32,
    n: int,
)
    requires
        ps.len() <= i32::MAX,
        0 <= n <= parents.len(),
        forall|b: int| 0 <= b < parents.len() ==> bud_open(ps, #[trigger] parents[b]),
    ensures
        ({
            let (links, updates) = tied_to_parents(parents, readings, target, n);
            ties_agree(ps, links, updates, target)
        }),
    decreases n,
{
    if n > 0 {
        lemma_parent_ties(ps, parents, readings, target, n - 1);
        let (links, updates) = tied_to_parents(parents, readings, target, n - 1);
        let b = parents[n - 1];
        match nearest_port(links, readings[b.particle as int].gaps@, num(ANY_ANGLE)) {
            Some(k) => {
                lemma_tie(
                    ps,
                    links,
                    updates,
                    k,
                    LinkUpdate { particle: b.particle, slot: b.slot, target },
                );
            },
            None => {},
        }
    }
}

/// After all updates, the existing particle of an update links to the new one, unless a later
/// update took the same slot.
pub proof fn law_updates_take_hold(
    links: Seq<i32>,
    updates: Seq<LinkUpdate>,
    u: int,
)
    requires
        links.len() == 6,
        0 <= u < updates.len(),
        forall|v: int| 0 <= v < updates.len() ==> (#[trigger] updates[v]).slot < 6,
        forall|v: int|
            u < v < updates.len() ==> (#[trigger] updates[v]).particle != updates[u].particle
                || updates[v].slot != updates[u].slot,
    ensures
        updated_links(
            links,
            updates,
            updates[u].particle as int,
            updates.len() as int,
        )[updates[u].slot as int] == updates[u].target as i32,
{
    lemma_update_stays(links, updates, u, updates.len() as int);
}

proof fn lemma_update_stays(links: Seq<i32>, updates: Seq<LinkUpdate>, u: int, n: int)
    requires
        links.len() == 6,
        0 <= u < n <= updates.len(),
        forall|v: int| 0 <= v < updates.len() ==> (#[trigger] updates[v]).slot < 6,
        forall|v: int|
            u < v < n ==> (#[trigger] updates[v]).particle != updates[u].particle
                || updates[v].slot != updates[u].slot,
    ensures
        updated_links(links, updates, updates[u].particle as int, n).len() == 6,
        updated_links(links, updates, updates[u].particle as int, n)[updates[u].slot as int]
            == updates[u].target as i32,
    decreases n,
{
    let e = updates[u].particle as int;
    lemma_updated_len(links, updates, e, n - 1);
    if n - 1 > u {
        lemma_update_stays(links, updates, u, n - 1);
    }
    let _ = updates[n - 1];
}

proof fn lemma_updated_len(links: Seq<i32>, updates: Seq<LinkUpdate>, e: int, n: int)
    requires
        links.len() == 6,
        0 <= n <= updates.len(),
        forall|v: int| 0 <= v < updates.len() ==> (#[trigger] updates[v]).slot < 6,
    ensures
        updated_links(links, updates, e, n).len() == 6,
    decreases n,
{
    if n > 0 {
        lemma_updated_len(links, updates, e, n - 1);
    }
}

/// Every link between new particles is answered.
pub open spec fn peers_mutual(fresh: Seq<Particle>, start: int) -> bool {
    forall|i: int, j: int|
        0 <= i < fresh.len() && 0 <= j < fresh.len() && fresh[i].links@.contains((start + j) as i32)
            ==> #[trigger] peer_answers(fresh, start, i, j)
}

/// Particle `j` links to particle `i`.
pub open spec fn peer_answers(fresh: Seq<Particle>, start: int, i: int, j: int) -> bool {
    fresh[j].links@.contains((start + i) as i32)
}

/// Tying pairs keeps the links between new particles mutual.
pub proof fn law_new_links_are_mutual(
    from: Seq<Particle>,
    i: int,
    j: int,
    m: PairReading,
    limit: Single,
    start: int,
    to: Seq<Particle>,
)
    requires
        pair_tied(from, i, j, m, limit, start, to),
        peers_mutual(from, start),
        0 <= i < j < from.len(),
        0 <= start,
        start + from.len() <= i32::MAX,
    ensures
        peers_mutual(to, start),
{
    match pair_ports(from[i].links@, from[j].links@, m, limit) {
        Some((a, b)) => {
            assert forall|x: int, y: int|
                0 <= x < to.len() && 0 <= y < to.len() && to[x].links@.contains((start + y) as i32)
                implies #[trigger] peer_answers(to, start, x, y) by {
                if x == i && y == j {
                    assert(to[j].links@[b] == start + i);
                } else if x == j && y == i {
                    assert(to[i].links@[a] == start + j);
                } else {
                    lemma_old_link(from, i, j, m, limit, start, to, x, y);
                    assert(peer_answers(from, start, x, y));
                    lemma_kept_link(from, i, j, m, limit, start, to, y, x);
                }
            }
        },
        None => {},
    }
}

proof fn lemma_old_link(
    from: Seq<Particle>,
    i: int,
    j: int,
    m: PairReading,
    limit: Single,
    start: int,
    to: Seq<Particle>,
    x: int,
    y: int,
)
    requires
        pair_tied(from, i, j, m, limit, start, to),
        pair_ports(from[i].links@, from[j].links@, m, limit) is Some,
        0 <= i < j < from.len(),
        0 <= start,
        start + from.len() <= i32::MAX,
        0 <= x < from.len(),
        0 <= y < from.len(),
        to[x].links@.contains((start + y) as i32),
        !(x == i && y == j),
        !(x == j && y == i),
    ensures
        from[x].links@.contains((start + y) as i32),
{
    let k = choose|k: int| 0 <= k < to[x].links@.len() && to[x].links@[k] == (start + y) as i32;
    let (a, b) = pair_ports(from[i].links@, from[j].links@, m, limit)->0;
    if x == i {
        assert(to[i].links@[a] == start + j);
        assert(k != a);
    } else if x == j {
        assert(to[j].links@[b] == start + i);
        assert(k != b);
    }
    assert(from[x].links@[k] == (start + y) as i32);
}

proof fn lemma_kept_link(
    from: Seq<Particle>,
    i: int,
    j: int,
    m: PairReading,
    limit: Single,
    start: int,
    to: Seq<Particle>,
    x: int,
    y: int,
)
    requires
        pair_tied(from, i, j, m, limit, start, to),
        pair_ports(from[i].links@, from[j].links@, m, limit) is Some,
        0 <= i < j < from.len(),
        0 <= start,
        start + from.len() <= i32::MAX,
        0 <= x < from.len(),
        0 <= y < from.len(),
        from[x].links@.contains((start + y) as i32),
    ensures
        to[x].links@.contains((start + y) as i32),
{
    let k = choose|k: int| 0 <= k < from[x].links@.len() && from[x].links@[k] == (start + y) as i32;
    let (a, b) = pair_ports(from[i].links@, from[j].links@, m, limit)->0;
    if x == i {
        assert(from[i].links@[a] == NO_LINK);
    } else if x == j {
        assert(from[j].links@[b] == NO_LINK);
    }
    assert(to[x].links@[k] == (start + y) as i32);
}

/// A new particle has exactly what was asked for, whatever its sign: the place of its sprout, the
/// material, the inverse mass and the gravity factor. It rests, without charge or heat, turned like
/// its first parent.
pub proof fn law_sprout_has_what_was_asked(
    existing: Vec<Particle>,
    sprout: Sprout,
    readings: Vec<GrowthReading>,
    limit: Single,
    target: u32,
    mat: u32,
    inv_mass: Single,
    grav_scale: Single,
    r: (Particle, Vec<LinkUpdate>),
)
    requires
        existing@.len() <= i32::MAX,
        readings@.len() == existing@.len(),
        sprout.parents@.len() > 0,
        forall|b: int|
            0 <= b < sprout.parents@.len() ==> (#[trigger] sprout.parents@[b]).particle
                < existing@.len(),
        call_ensures(
            grow_one,
            (&existing, &sprout, &readings, limit, target, mat, inv_mass, grav_scale),
            r,
        ),
    ensures
        r.0.pos == sprout.pos,
        r.0.mat_type == mat,
        r.0.inv_mass == inv_mass,
        r.0.grav_scale == grav_scale,
        r.0.angle == existing@[sprout.parents@[0].particle as int].angle,
        r.0.vel@[0].bits == 0,
        r.0.vel@[1].bits == 0,
        r.0.charge.bits == 0,
        r.0.temperature.bits == 0,
        grav_scale.less(num(0xb8d1_b717)) ==> r.0.budgeted(),
{
    let rest = choose|rest: Particle|
        at_rest(rest, sprout.pos, mat, inv_mass, grav_scale) && r.0 == (Particle {
            links: r.0.links,
            angle: r.0.angle,
            ..rest
        });
    assert(r.0.pos == rest.pos);
}

/// A port that a particle took when it was the best of the free ones: none that is still free would
/// have been better.
spec fn seat(links: Seq<i32>, gaps: Seq<Single>, limit: Single, id: int, k: int) -> bool {
    &&& 0 <= k < 6
    &&& links[k] == id
    &&& gaps[k].less(limit)
    &&& forall|j: int|
        0 <= j < 6 && links[j] == NO_LINK ==> !(#[trigger] gaps[j]).less(gaps[k]) && (j < k
            ==> !gaps[j].at_most(gaps[k]))
}

/// The particle has such a port.
spec fn seated(links: Seq<i32>, gaps: Seq<Single>, limit: Single, id: int) -> bool {
    exists|k: int| seat(links, gaps, limit, id, k)
}

proof fn lemma_seat_taken(links: Seq<i32>, gaps: Seq<Single>, limit: Single, id: i32, k: int)
    requires
        links.len() == 6,
        is_nearest_port(links, gaps, limit, k),
        id >= 0,
    ensures
        seat(links.update(k, id), gaps, limit, id as int, k),
        used_slots(links.update(k, id), 6) == used_slots(links, 6) + 1,
{
    let more = links.update(k, id);
    assert forall|j: int| 0 <= j < 6 && more[j] == NO_LINK implies !(#[trigger] gaps[j]).less(
        gaps[k],
    ) && (j < k ==> !gaps[j].at_most(gaps[k])) by {
        assert(links[j] == NO_LINK);
    }
    reveal_with_fuel(used_slots, 7);
}

proof fn lemma_seat_stays(
    links: Seq<i32>,
    gaps: Seq<Single>,
    limit: Single,
    id: int,
    m: int,
    other: i32,
)
    requires
        links.len() == 6,
        seated(links, gaps, limit, id),
        id >= 0,
        0 <= m < 6,
        links[m] == NO_LINK,
        other >= 0,
    ensures
        seated(links.update(m, other), gaps, limit, id),
{
    let k = choose|k: int| seat(links, gaps, limit, id, k);
    let more = links.update(m, other);
    assert forall|j: int| 0 <= j < 6 && more[j] == NO_LINK implies !(#[trigger] gaps[j]).less(
        gaps[k],
    ) && (j < k ==> !gaps[j].at_most(gaps[k])) by {
        assert(links[j] == NO_LINK);
    }
    assert(seat(more, gaps, limit, id, k));
}

/// What holds of one link that a new particle makes.
spec fn tie_sound(
    ps: Seq<Particle>,
    parents: Seq<Bud>,
    readings: Seq<GrowthReading>,
    limit: Single,
    target: u32,
    links: Seq<i32>,
    u: LinkUpdate,
    n: int,
) -> bool {
    let e = u.particle as int;
    &&& e < ps.len()
    &&& u.target == target
    &&& is_parent(parents, e) ==> {
        &&& seated(links, readings[e].gaps@, num(ANY_ANGLE), e)
        &&& exists|b: int|
            0 <= b < 6 && b < parents.len() && #[trigger] parents[b] == (Bud {
                particle: u.particle,
                slot: u.slot,
            })
    }
    &&& !is_parent(parents, e) ==> {
        &&& e < n
        &&& seated(links, readings[e].gaps@, num(PORT_TOLERANCE), e)
        &&& bondable_bystander(ps, parents, readings, limit, e)
        &&& first_free(ps[e].links@, u.slot as int)
    }
}

/// The particle is one of those that are to link back.
spec fn listed(updates: Seq<LinkUpdate>, e: int) -> bool {
    exists|u: int| 0 <= u < updates.len() && (#[trigger] updates[u]).particle == e
}

/// What holds of all links of a new particle, once the parents and the first `n` particles have been
/// looked at.
spec fn ties_sound(
    ps: Seq<Particle>,
    parents: Seq<Bud>,
    readings: Seq<GrowthReading>,
    limit: Single,
    target: u32,
    links: Seq<i32>,
    updates: Seq<LinkUpdate>,
    n: int,
) -> bool {
    &&& links.len() == 6
    &&& used_slots(links, 6) == updates.len()
    &&& forall|u: int|
        0 <= u < updates.len() ==> tie_sound(
            ps,
            parents,
            readings,
            limit,
            target,
            links,
            #[trigger] updates[u],
            n,
        )
    &&& forall|u: int, v: int|
        0 <= u < v < updates.len() ==> is_parent(parents, (#[trigger] updates[u]).particle as int)
            || updates[u].particle < (#[trigger] updates[v]).particle && !is_parent(
            parents,
            updates[v].particle as int,
        )
    &&& forall|e: int, j: int|
        #![trigger readings[e].gaps@[j]]
        0 <= e < n && 0 <= j < 6 && bondable_bystander(ps, parents, readings, limit, e)
            && ps[e].links@.contains(NO_LINK) && !listed(updates, e) && links[j] == NO_LINK
            ==> !readings[e].gaps@[j].less(num(PORT_TOLERANCE))
}

proof fn lemma_tie_sound_stays(
    ps: Seq<Particle>,
    parents: Seq<Bud>,
    readings: Seq<GrowthReading>,
    limit: Single,
    target: u32,
    links: Seq<i32>,
    updates: Seq<LinkUpdate>,
    n: int,
    to: int,
    k: int,
    new: LinkUpdate,
    angle: Single,
)
    requires
        ties_sound(ps, parents, readings, limit, target, links, updates, n),
        n <= to,
        ps.len() <= i32::MAX,
        new.particle < ps.len(),
        new.target == target,
        is_nearest_port(links, readings[new.particle as int].gaps@, angle, k),
        is_parent(parents, new.particle as int) ==> {
            &&& angle == num(ANY_ANGLE)
            &&& n <= 0
            &&& exists|b: int|
                0 <= b < 6 && b < parents.len() && #[trigger] parents[b] == (Bud {
                    particle: new.particle,
                    slot: new.slot,
                })
        },
        !is_parent(parents, new.particle as int) ==> {
            &&& angle == num(PORT_TOLERANCE)
            &&& n <= new.particle < to
            &&& bondable_bystander(ps, parents, readings, limit, new.particle as int)
            &&& first_free(ps[new.particle as int].links@, new.slot as int)
        },
        to == n || to == n + 1 && new.particle == n,
    ensures
        ties_sound(
            ps,
            parents,
            readings,
            limit,
            target,
            links.update(k, new.particle as i32),
            updates.push(new),
            to,
        ),
{
    let e = new.particle as int;
    let more = links.update(k, new.particle as i32);
    let all = updates.push(new);
    lemma_seat_taken(links, readings[e].gaps@, angle, new.particle as i32, k);
    assert forall|u: int| 0 <= u < all.len() implies tie_sound(
        ps,
        parents,
        readings,
        limit,
        target,
        more,
        #[trigger] all[u],
        to,
    ) by {
        if u < updates.len() {
            assert(all[u] == updates[u]);
            let old_e = updates[u].particle as int;
            if is_parent(parents, old_e) {
                lemma_seat_stays(
                    links,
                    readings[old_e].gaps@,
                    num(ANY_ANGLE),
                    old_e,
                    k,
                    new.particle as i32,
                );
            } else {
                lemma_seat_stays(
                    links,
                    readings[old_e].gaps@,
                    num(PORT_TOLERANCE),
                    old_e,
                    k,
                    new.particle as i32,
                );
            }
        } else {
            assert(seat(more, readings[e].gaps@, angle, e, k));
        }
    }
    assert forall|u: int, v: int|
        0 <= u < v < all.len() implies is_parent(parents, (#[trigger] all[u]).particle as int)
        || all[u].particle < (#[trigger] all[v]).particle && !is_parent(
        parents,
        all[v].particle as int,
    ) by {
        assert(all[u] == updates[u]);
        if v < updates.len() {
            assert(all[v] == updates[v]);
        } else {
            assert(tie_sound(ps, parents, readings, limit, target, links, updates[u], n));
        }
    }
    assert forall|d: int, j: int|
        #![trigger readings[d].gaps@[j]]
        0 <= d < to && 0 <= j < 6 && bondable_bystander(ps, parents, readings, limit, d)
            && ps[d].links@.contains(NO_LINK) && !listed(all, d) && more[j] == NO_LINK
        implies !readings[d].gaps@[j].less(num(PORT_TOLERANCE)) by {
        if listed(updates, d) {
            let u = choose|u: int| 0 <= u < updates.len() && (#[trigger] updates[u]).particle == d;
            assert(all[u].particle == d);
        }
        if d >= n {
            assert(all[updates.len() as int].particle == d);
        }
        assert(links[j] == NO_LINK);
    }
}

proof fn lemma_parents_sound(
    ps: Seq<Particle>,
    parents: Seq<Bud>,
    readings: Seq<GrowthReading>,
    limit: Single,
    target: u32,
    n: int,
)
    requires
        0 <= n <= parents.len(),
        n <= 6,
        ps.len() <= i32::MAX,
        forall|b: int| 0 <= b < parents.len() ==> (#[trigger] parents[b]).particle < ps.len(),
    ensures
        ({
            let (links, updates) = tied_to_parents(parents, readings, target, n);
            ties_sound(ps, parents, readings, limit, target, links, updates, 0)
        }),
    decreases n,
{
    reveal_with_fuel(used_slots, 7);
    if n > 0 {
        lemma_parents_sound(ps, parents, readings, limit, target, n - 1);
        let (links, updates) = tied_to_parents(parents, readings, target, n - 1);
        let b = parents[n - 1];
        assert(is_parent(parents, b.particle as int));
        match nearest_port(links, readings[b.particle as int].gaps@, num(ANY_ANGLE)) {
            Some(k) => {
                assert(parents[n - 1] == (Bud { particle: b.particle, slot: b.slot }));
                lemma_tie_sound_stays(
                    ps,
                    parents,
                    readings,
                    limit,
                    target,
                    links,
                    updates,
                    0,
                    0,
                    k,
                    LinkUpdate { particle: b.particle, slot: b.slot, target },
                    num(ANY_ANGLE),
                );
            },
            None => {},
        }
    }
}

/// With all six ports in use, none is free.
proof fn lemma_all_ports_used(links: Seq<i32>, j: int)
    requires
        links.len() == 6,
        0 <= j < 6,
    ensures
        used_slots(links, 6) >= 6 ==> links[j] != NO_LINK,
        used_slots(links, 6) <= 6,
{
    reveal_with_fuel(used_slots, 7);
}

proof fn lemma_bystanders_sound(
    ps: Seq<Particle>,
    parents: Seq<Bud>,
    readings: Seq<GrowthReading>,
    limit: Single,
    target: u32,
    n: int,
)
    requires
        0 <= n <= ps.len() <= i32::MAX,
        forall|b: int| 0 <= b < parents.len() ==> (#[trigger] parents[b]).particle < ps.len(),
    ensures
        ({
            let (links, updates) = tied_to_bystanders(ps, parents, readings, limit, target, n);
            ties_sound(ps, parents, readings, limit, target, links, updates, n)
        }),
    decreases n,
{
    if n <= 0 {
        lemma_parents_sound(
            ps,
            parents,
            readings,
            limit,
            target,
            if parents.len() < 6 {
                parents.len() as int
            } else {
                6
            },
        );
    } else {
        lemma_bystanders_sound(ps, parents, readings, limit, target, n - 1);
        let (links, updates) = tied_to_bystanders(ps, parents, readings, limit, target, n - 1);
        let (more, all) = tied_to_bystanders(ps, parents, readings, limit, target, n);
        let e = n - 1;
        if all.len() > updates.len() {
            let k = nearest_port(links, readings[e].gaps@, num(PORT_TOLERANCE))->0;
            let s = choose|s: int| first_free(ps[e].links@, s);
            lemma_tie_sound_stays(
                ps,
                parents,
                readings,
                limit,
                target,
                links,
                updates,
                n - 1,
                n,
                k,
                LinkUpdate { particle: e as usize, slot: s as usize, target },
                num(PORT_TOLERANCE),
            );
        } else {
            assert(more == links && all == updates);
            assert forall|u: int| 0 <= u < all.len() implies tie_sound(
                ps,
                parents,
                readings,
                limit,
                target,
                more,
                #[trigger] all[u],
                n,
            ) by {
                assert(tie_sound(ps, parents, readings, limit, target, links, updates[u], n - 1));
            }
            assert forall|d: int, j: int|
                #![trigger readings[d].gaps@[j]]
                0 <= d < n && 0 <= j < 6 && bondable_bystander(ps, parents, readings, limit, d)
                    && ps[d].links@.contains(NO_LINK) && !listed(all, d) && more[j] == NO_LINK
                implies !readings[d].gaps@[j].less(num(PORT_TOLERANCE)) by {
                if d == e {
                    lemma_all_ports_used(links, j);
                    let f = choose|f: int| 0 <= f < 6 && ps[e].links@[f] == NO_LINK;
                    lemma_some_slot_is_first(ps[e].links@, f);
                    if readings[e].gaps@[j].less(num(PORT_TOLERANCE)) {
                        law_some_port_is_nearest(links, readings[e].gaps@, num(PORT_TOLERANCE), j);
                    }
                }
            }
        }
    }
}

/// Where a slot is free, there is a first one.
proof fn lemma_some_slot_is_first(links: Seq<i32>, f: int)
    requires
        0 <= f < 6,
        links[f] == NO_LINK,
    ensures
        exists|s: int| first_free(links, s),
    decreases f,
{
    if exists|t: int| 0 <= t < f && links[t] == NO_LINK {
        let t = choose|t: int| 0 <= t < f && links[t] == NO_LINK;
        lemma_some_slot_is_first(links, t);
    } else {
        assert(first_free(links, f));
    }
}

/// Parents come first, and what they took stays.
proof fn lemma_parents_are_tied(
    ps: Seq<Particle>,
    parents: Seq<Bud>,
    readings: Seq<GrowthReading>,
    limit: Single,
    target: u32,
    n: int,
    m: int,
)
    requires
        0 <= m <= parents.len(),
        m <= 6,
        0 <= n <= ps.len() <= i32::MAX,
        forall|b: int| 0 <= b < parents.len() ==> (#[trigger] parents[b]).particle < ps.len(),
        forall|b: int, j: int|
            0 <= b < m && 0 <= j < 6 ==> #[trigger] readings[parents[b].particle as int].gaps@[j].less(
                num(ANY_ANGLE),
            ),
    ensures
        tied_to_parents(parents, readings, target, m).1.len() == m,
        forall|b: int|
            0 <= b < m ==> #[trigger] tied_to_parents(parents, readings, target, m).1[b] == (
            LinkUpdate { particle: parents[b].particle, slot: parents[b].slot, target }),
        m == parents.len() || m == 6 ==> {
            let all = tied_to_bystanders(ps, parents, readings, limit, target, n).1;
            &&& m <= all.len()
            &&& forall|b: int|
                0 <= b < m ==> #[trigger] all[b] == (LinkUpdate {
                    particle: parents[b].particle,
                    slot: parents[b].slot,
                    target,
                })
        },
    decreases m, n,
{
    if n > 0 {
        lemma_parents_are_tied(ps, parents, readings, limit, target, n - 1, m);
    } else if m > 0 {
        lemma_parents_are_tied(ps, parents, readings, limit, target, 0, m - 1);
        lemma_parents_sound(ps, parents, readings, limit, target, m - 1);
        let (links, updates) = tied_to_parents(parents, readings, target, m - 1);
        let gaps = readings[parents[m - 1].particle as int].gaps@;
        reveal_with_fuel(used_slots, 7);
        let j = if links[0] == NO_LINK {
            0int
        } else if links[1] == NO_LINK {
            1
        } else if links[2] == NO_LINK {
            2
        } else if links[3] == NO_LINK {
            3
        } else if links[4] == NO_LINK {
            4
        } else {
            5
        };
        assert(links[j] == NO_LINK);
        assert(gaps[j].less(num(ANY_ANGLE)));
        law_some_port_is_nearest(links, gaps, num(ANY_ANGLE), j);
    }
}

/// Every one of the first six parents is tied: where the angles are angles, the links of the new
/// particle name each of them, and the updates begin with them, in their order, each with the slot
/// of its bud and the number of the new particle.
pub proof fn law_every_parent_is_tied(
    existing: Vec<Particle>,
    sprout: Sprout,
    readings: Vec<GrowthReading>,
    limit: Single,
    target: u32,
    mat: u32,
    inv_mass: Single,
    grav_scale: Single,
    r: (Particle, Vec<LinkUpdate>),
    b: int,
)
    requires
        existing@.len() <= i32::MAX,
        readings@.len() == existing@.len(),
        0 < sprout.parents@.len(),
        forall|c: int|
            0 <= c < sprout.parents@.len() ==> (#[trigger] sprout.parents@[c]).particle
                < existing@.len(),
        forall|c: int, j: int|
            0 <= c < 6 && c < sprout.parents@.len() && 0 <= j < 6
                ==> #[trigger] readings@[sprout.parents@[c].particle as int].gaps@[j].less(
                num(0x42c8_0000),
            ),
        0 <= b < 6,
        b < sprout.parents@.len(),
        call_ensures(
            grow_one,
            (&existing, &sprout, &readings, limit, target, mat, inv_mass, grav_scale),
            r,
        ),
    ensures
        b < r.1@.len(),
        r.1@[b].particle == sprout.parents@[b].particle,
        r.1@[b].slot == sprout.parents@[b].slot,
        r.1@[b].target == target,
        exists|k: int| 0 <= k < 6 && #[trigger] r.0.links@[k] == sprout.parents@[b].particle,
{
    let n = existing@.len() as int;
    let parents = sprout.parents@;
    lemma_parents_are_tied(
        existing@,
        parents,
        readings@,
        limit,
        target,
        n,
        if parents.len() < 6 {
            parents.len() as int
        } else {
            6
        },
    );
    lemma_bystanders_sound(existing@, parents, readings@, limit, target, n);
    assert(tie_sound(
        existing@,
        parents,
        readings@,
        limit,
        target,
        r.0.links@,
        r.1@[b],
        n,
    ));
    let e = parents[b].particle as int;
    let gaps = readings@[e].gaps@;
    assert(is_parent(parents, e));
    let k = choose|k: int| seat(r.0.links@, gaps, num(ANY_ANGLE), e, k);
    assert(r.0.links@[k] == e);
}

/// Every link that a new particle makes is in order: the particle at its other end is to link back
/// with the number of the new one, and the port was the best that was free. A parent links back
/// through its bud; any other is there, lies nearer than the bonding distance but not in the same
/// place, is seen by the port within 0.6, and links back through its first free slot.
pub proof fn law_ties_are_in_order(
    existing: Vec<Particle>,
    sprout: Sprout,
    readings: Vec<GrowthReading>,
    limit: Single,
    target: u32,
    mat: u32,
    inv_mass: Single,
    grav_scale: Single,
    r: (Particle, Vec<LinkUpdate>),
    u: int,
    j: int,
)
    requires
        existing@.len() <= i32::MAX,
        readings@.len() == existing@.len(),
        sprout.parents@.len() > 0,
        forall|b: int|
            0 <= b < sprout.parents@.len() ==> (#[trigger] sprout.parents@[b]).particle
                < existing@.len(),
        call_ensures(
            grow_one,
            (&existing, &sprout, &readings, limit, target, mat, inv_mass, grav_scale),
            r,
        ),
        0 <= u < r.1@.len(),
        0 <= j < 6,
    ensures
        ({
            let t = r.1@[u];
            let e = t.particle as int;
            let gaps = readings@[e].gaps@;
            let parent = exists|b: int|
                0 <= b < sprout.parents@.len() && (#[trigger] sprout.parents@[b]).particle == e;
            &&& e < existing@.len()
            &&& t.target == target
            &&& exists|k: int| #![trigger r.0.links@[k]] {
                &&& 0 <= k < 6
                &&& r.0.links@[k] == e
                &&& parent ==> gaps[k].less(num(0x42c8_0000))
                &&& !parent ==> gaps[k].less(num(0x3f19_999a))
                &&& r.0.links@[j] == -1 ==> !gaps[j].less(gaps[k])
                &&& r.0.links@[j] == -1 && j < k ==> !gaps[j].at_most(gaps[k])
            }
            &&& parent ==> exists|b: int|
                0 <= b < 6 && b < sprout.parents@.len() && (
                #[trigger] sprout.parents@[b]).particle == e && sprout.parents@[b].slot == t.slot
            &&& !parent ==> {
                &&& existing@[e].mat_type & 0x4000_0000 == 0
                &&& readings@[e].dist.less(limit)
                &&& num(0x38d1_b717).less(readings@[e].dist)
                &&& t.slot < 6
                &&& existing@[e].links@[t.slot as int] == -1
                &&& j < t.slot ==> existing@[e].links@[j] != -1
            }
        }),
{
    let n = existing@.len() as int;
    let parents = sprout.parents@;
    lemma_bystanders_sound(existing@, parents, readings@, limit, target, n);
    let t = r.1@[u];
    assert(tie_sound(existing@, parents, readings@, limit, target, r.0.links@, t, n));
    let e = t.particle as int;
    let gaps = readings@[e].gaps@;
    let angle = if is_parent(parents, e) {
        num(ANY_ANGLE)
    } else {
        num(PORT_TOLERANCE)
    };
    assert(seated(r.0.links@, gaps, angle, e));
    let k = choose|k: int| seat(r.0.links@, gaps, angle, e, k);
    assert(r.0.links@[k] == e);
    if r.0.links@[j] == -1 {
        assert(!gaps[j].less(gaps[k]));
    }
    if !is_parent(parents, e) && j < t.slot {
        assert(existing@[e].links@[j] != NO_LINK);
    }
}

/// A new particle takes every link it can get: a particle that is there, is no parent, lies at
/// bonding distance and has a free slot is left out only if no port that stays free sees it within
/// 0.6. It has as many links as there are updates, and it ties the bystanders in their order, after
/// the parents.
pub proof fn law_no_tie_is_left_out(
    existing: Vec<Particle>,
    sprout: Sprout,
    readings: Vec<GrowthReading>,
    limit: Single,
    target: u32,
    mat: u32,
    inv_mass: Single,
    grav_scale: Single,
    r: (Particle, Vec<LinkUpdate>),
    used: u32,
    e: int,
    f: int,
    j: int,
    u: int,
    v: int,
)
    requires
        existing@.len() <= i32::MAX,
        readings@.len() == existing@.len(),
        sprout.parents@.len() > 0,
        forall|b: int|
            0 <= b < sprout.parents@.len() ==> (#[trigger] sprout.parents@[b]).particle
                < existing@.len(),
        call_ensures(
            grow_one,
            (&existing, &sprout, &readings, limit, target, mat, inv_mass, grav_scale),
            r,
        ),
        call_ensures(count_links, (&r.0.links,), used),
    ensures
        used == r.1@.len(),
        ({
            &&& 0 <= e < existing@.len()
            &&& existing@[e].mat_type & 0x4000_0000 == 0
            &&& forall|b: int|
                0 <= b < sprout.parents@.len() ==> (#[trigger] sprout.parents@[b]).particle != e
            &&& readings@[e].dist.less(limit)
            &&& num(0x38d1_b717).less(readings@[e].dist)
            &&& 0 <= f < 6
            &&& existing@[e].links@[f] == -1
            &&& forall|w: int| 0 <= w < r.1@.len() ==> (#[trigger] r.1@[w]).particle != e
            &&& 0 <= j < 6
            &&& r.0.links@[j] == -1
        }) ==> !readings@[e].gaps@[j].less(num(0x3f19_999a)),
        0 <= u < v < r.1@.len() && (forall|b: int|
            0 <= b < sprout.parents@.len() ==> (#[trigger] sprout.parents@[b]).particle
                != r.1@[u].particle) ==> {
            &&& r.1@[u].particle < r.1@[v].particle
            &&& forall|b: int|
                0 <= b < sprout.parents@.len() ==> (#[trigger] sprout.parents@[b]).particle
                    != r.1@[v].particle
        },
{
    let n = existing@.len() as int;
    let parents = sprout.parents@;
    lemma_bystanders_sound(existing@, parents, readings@, limit, target, n);
    if 0 <= e < n && 0 <= f < 6 && existing@[e].links@[f] == -1 {
        assert(existing@[e].links@.contains(NO_LINK));
    }
    let _ = readings@[e].gaps@[j];
    if 0 <= u < v < r.1@.len() {
        assert(is_parent(parents, r.1@[u].particle as int) || r.1@[u].particle < r.1@[v].particle
            && !is_parent(parents, r.1@[v].particle as int));
        assert forall|b: int|
            !is_parent(parents, r.1@[v].particle as int) && 0 <= b
                < sprout.parents@.len() implies (#[trigger] sprout.parents@[b]).particle
            != r.1@[v].particle by {}
    }
}

/// The first free slot is free, and none before it is; there is none exactly if all are in use.
pub proof fn law_free_slot_is_the_first(links: [i32; 6], r: Option<usize>, t: int)
    requires
        call_ensures(free_slot, (&links,), r),
        0 <= t < 6,
    ensures
        r matches Some(s) ==> s < 6 && links@[s as int] == -1 && (t < s ==> links@[t] != -1),
        r is None ==> links@[t] != -1,
{
    if links@[t] == NO_LINK {
        assert(links@.contains(NO_LINK));
    }
}

/// As many sprouts become particles as there are and as there is room for.
pub proof fn law_sprouts_fill_the_room(sprouts: Vec<Sprout>, active: u32, capacity: u32, r: usize)
    requires
        call_ensures(sprout_count, (&sprouts, active, capacity), r),
    ensures
        r <= sprouts@.len(),
        active >= capacity ==> r == 0,
        active < capacity ==> active + r <= capacity,
        active < capacity && r < sprouts@.len() ==> active + r == capacity,
{
}

/// Something is nearby exactly if a particle that is there lies no further than the reach.
pub proof fn law_nearby_is_within_reach(
    existing: Vec<Particle>,
    dist_sq: Vec<Single>,
    reach_sq: Single,
    r: bool,
    i: int,
)
    requires
        dist_sq@.len() == existing@.len(),
        call_ensures(has_nearby, (&existing, &dist_sq, reach_sq), r),
    ensures
        0 <= i < existing@.len() && existing@[i].mat_type & 0x4000_0000 == 0 && dist_sq@[i].at_most(
            reach_sq,
        ) ==> r,
        r ==> exists|j: int|
            0 <= j < existing@.len() && (#[trigger] existing@[j]).mat_type & 0x4000_0000 == 0
                && dist_sq@[j].at_most(reach_sq),
{
    if 0 <= i < existing@.len() && reached(existing@[i], dist_sq@[i], reach_sq) {
        assert(some_reached(existing@, dist_sq@, reach_sq));
    }
    if r {
        let j = choose|j: int|
            0 <= j < existing@.len() && reached(#[trigger] existing@[j], dist_sq@[j], reach_sq);
        assert(existing@[j].mat_type & 0x4000_0000 == 0);
    }
}

/// A place is taken exactly if a particle that is there stands closer than the threshold.
pub proof fn law_occupied_means_too_close(
    existing: Vec<Particle>,
    gaps_sq: Vec<Single>,
    overlap_sq: Single,
    r: bool,
    i: int,
)
    requires
        gaps_sq@.len() == existing@.len(),
        call_ensures(is_occupied, (&existing, &gaps_sq, overlap_sq), r),
    ensures
        0 <= i < existing@.len() && existing@[i].mat_type & 0x4000_0000 == 0 && gaps_sq@[i].less(
            overlap_sq,
        ) ==> r,
        r ==> exists|j: int|
            0 <= j < existing@.len() && (#[trigger] existing@[j]).mat_type & 0x4000_0000 == 0
                && gaps_sq@[j].less(overlap_sq),
{
    if 0 <= i < existing@.len() && !existing@[i].removed() && gaps_sq@[i].less(overlap_sq) {
        assert(some_too_close(existing@, gaps_sq@, overlap_sq));
    }
}

/// What one particle contributes to the buds.
proof fn lemma_buds_of_all(links: Seq<i32>, i: int, k: int, s: int)
    requires
        0 <= s < k <= 6,
        0 <= i <= usize::MAX,
        links[s] == NO_LINK,
    ensures
        buds_of(links, i, k).contains(Bud { particle: i as usize, slot: s as usize }),
    decreases k,
{
    let bud = Bud { particle: i as usize, slot: s as usize };
    let all = buds_of(links, i, k);
    if s == k - 1 {
        assert(all[all.len() - 1] == bud);
    } else {
        lemma_buds_of_all(links, i, k - 1, s);
        let before = buds_of(links, i, k - 1);
        let a = choose|a: int| 0 <= a < before.len() && before[a] == bud;
        assert(all[a] == bud);
    }
}

proof fn lemma_buds_all(
    ps: Seq<Particle>,
    dist_sq: Seq<Single>,
    reach_sq: Single,
    n: int,
    i: int,
    s: int,
)
    requires
        0 <= i < n <= ps.len() <= usize::MAX,
        0 <= s < 6,
        sprouts(ps[i], dist_sq[i], reach_sq),
        ps[i].links@[s] == NO_LINK,
    ensures
        buds(ps, dist_sq, reach_sq, n).contains(Bud { particle: i as usize, slot: s as usize }),
    decreases n,
{
    let bud = Bud { particle: i as usize, slot: s as usize };
    let before = buds(ps, dist_sq, reach_sq, n - 1);
    let all = buds(ps, dist_sq, reach_sq, n);
    if i == n - 1 {
        lemma_buds_of_all(ps[i].links@, i, 6, s);
        let own = buds_of(ps[i].links@, i, 6);
        let a = choose|a: int| 0 <= a < own.len() && own[a] == bud;
        assert(all[before.len() + a] == bud);
    } else {
        lemma_buds_all(ps, dist_sq, reach_sq, n - 1, i, s);
        let a = choose|a: int| 0 <= a < before.len() && before[a] == bud;
        assert(all[a] == bud);
    }
}

proof fn lemma_buds_sprout(
    ps: Seq<Particle>,
    dist_sq: Seq<Single>,
    reach_sq: Single,
    n: int,
    a: int,
)
    requires
        0 <= n <= ps.len() <= usize::MAX,
        0 <= a < buds(ps, dist_sq, reach_sq, n).len(),
    ensures
        ({
            let b = buds(ps, dist_sq, reach_sq, n)[a];
            &&& b.particle < n
            &&& sprouts(ps[b.particle as int], dist_sq[b.particle as int], reach_sq)
        }),
    decreases n,
{
    if n > 0 {
        let before = buds(ps, dist_sq, reach_sq, n - 1);
        if a < before.len() {
            lemma_buds_sprout(ps, dist_sq, reach_sq, n - 1, a);
        } else {
            lemma_buds_of(ps[n - 1].links@, n - 1, 6);
            let own = buds_of(ps[n - 1].links@, n - 1, 6);
            assert(buds(ps, dist_sq, reach_sq, n)[a] == own[a - before.len()]);
        }
    }
}

/// The buds are exactly the free slots of the particles that are there and not beyond reach, each
/// once, by particle and then by slot.
pub proof fn law_buds_are_the_free_slots_in_reach(
    existing: Vec<Particle>,
    dist_sq: Vec<Single>,
    reach_sq: Single,
    r: Vec<Bud>,
    i: int,
    s: int,
    a: int,
    b: int,
)
    requires
        dist_sq@.len() == existing@.len(),
        call_ensures(find_buds, (&existing, &dist_sq, reach_sq), r),
        existing@.len() <= usize::MAX,
    ensures
        0 <= i < existing@.len() && 0 <= s < 6 && existing@[i].mat_type & 0x4000_0000 == 0
            && !reach_sq.less(dist_sq@[i]) && existing@[i].links@[s] == -1 ==> exists|c: int|
            0 <= c < r@.len() && (#[trigger] r@[c]).particle == i && r@[c].slot == s,
        0 <= a < r@.len() ==> {
            &&& r@[a].particle < existing@.len()
            &&& r@[a].slot < 6
            &&& existing@[r@[a].particle as int].mat_type & 0x4000_0000 == 0
            &&& !reach_sq.less(dist_sq@[r@[a].particle as int])
            &&& existing@[r@[a].particle as int].links@[r@[a].slot as int] == -1
        },
        0 <= a < b < r@.len() ==> r@[a].particle < r@[b].particle || r@[a].particle
            == r@[b].particle && r@[a].slot < r@[b].slot,
{
    let n = existing@.len() as int;
    lemma_buds(existing@, dist_sq@, reach_sq, n);
    if 0 <= a < r@.len() {
        lemma_buds_sprout(existing@, dist_sq@, reach_sq, n, a);
        let _ = r@[a];
    }
    if 0 <= i < n && 0 <= s < 6 && sprouts(existing@[i], dist_sq@[i], reach_sq)
        && existing@[i].links@[s] == -1 {
        lemma_buds_all(existing@, dist_sq@, reach_sq, n, i, s);
        let c = choose|c: int|
            0 <= c < r@.len() && r@[c] == (Bud { particle: i as usize, slot: s as usize });
        assert(r@[c].particle == i);
    }
}

/// A bud joins the first sprout that is closer than the threshold, behind the parents it has; where
/// none is, it begins a sprout of its own behind the others. No other sprout changes.
pub proof fn law_bud_joins_the_first_close_sprout(
    sprouts: &mut Vec<Sprout>,
    pos: [Single; 2],
    bud: Bud,
    gaps_sq: Vec<Single>,
    overlap_sq: Single,
    done: (),
    c: int,
    d: int,
)
    requires
        gaps_sq@.len() == old(sprouts)@.len(),
        call_ensures(join_sprout, (sprouts, pos, bud, &gaps_sq, overlap_sq), done),
        0 <= d < old(sprouts)@.len() || old(sprouts)@.len() == 0,
    ensures
        0 <= c < gaps_sq@.len() && gaps_sq@[c].less(overlap_sq) && (forall|e: int|
            0 <= e < c ==> !(#[trigger] gaps_sq@[e]).less(overlap_sq)) ==> {
            &&& final(sprouts)@.len() == old(sprouts)@.len()
            &&& final(sprouts)@[c].pos == old(sprouts)@[c].pos
            &&& final(sprouts)@[c].parents@ == old(sprouts)@[c].parents@.push(bud)
            &&& d != c ==> final(sprouts)@[d] == old(sprouts)@[d]
        },
        (forall|e: int| 0 <= e < gaps_sq@.len() ==> !(#[trigger] gaps_sq@[e]).less(overlap_sq))
            ==> {
            &&& final(sprouts)@.len() == old(sprouts)@.len() + 1
            &&& final(sprouts)@[old(sprouts)@.len() as int].pos == pos
            &&& final(sprouts)@[old(sprouts)@.len() as int].parents@.len() == 1
            &&& final(sprouts)@[old(sprouts)@.len() as int].parents@[0] == bud
            &&& old(sprouts)@.len() > 0 ==> final(sprouts)@[d] == old(sprouts)@[d]
        },
{
    if 0 <= c < gaps_sq@.len() && gaps_sq@[c].less(overlap_sq) && (forall|e: int|
        0 <= e < c ==> !(#[trigger] gaps_sq@[e]).less(overlap_sq)) {
        assert(first_close(gaps_sq@, overlap_sq, c));
    }
}

/// Two new particles are tied exactly if they lie at bonding distance, not in one place, and each has
/// a free port that sees the other within 0.6. Each then takes the best such port and names the
/// other; nothing else changes.
pub proof fn law_pairs_are_tied_by_their_best_ports(
    fresh: &mut Vec<Particle>,
    i: usize,
    j: usize,
    m: PairReading,
    limit: Single,
    start: u32,
    done: (),
    a: Option<usize>,
    b: Option<usize>,
    e: int,
)
    requires
        i < j < old(fresh)@.len(),
        start + old(fresh)@.len() <= i32::MAX,
        call_ensures(tie_pair, (fresh, i, j, &m, limit, start), done),
        call_ensures(
            find_port,
            (&old(fresh)@[i as int].links, &m.gaps_first, num(0x3f19_999a)),
            a,
        ),
        call_ensures(
            find_port,
            (&old(fresh)@[j as int].links, &m.gaps_second, num(0x3f19_999a)),
            b,
        ),
        0 <= e < old(fresh)@.len(),
    ensures
        final(fresh)@.len() == old(fresh)@.len(),
        final(fresh)@[e].pos == old(fresh)@[e].pos,
        final(fresh)@[e].vel == old(fresh)@[e].vel,
        final(fresh)@[e].charge == old(fresh)@[e].charge,
        final(fresh)@[e].angle == old(fresh)@[e].angle,
        final(fresh)@[e].temperature == old(fresh)@[e].temperature,
        final(fresh)@[e].mat_type == old(fresh)@[e].mat_type,
        final(fresh)@[e].inv_mass == old(fresh)@[e].inv_mass,
        final(fresh)@[e].grav_scale == old(fresh)@[e].grav_scale,
        e != i && e != j ==> final(fresh)@[e].links@ == old(fresh)@[e].links@,
        m.dist.less(limit) && num(0x38d1_b717).less(m.dist) && a is Some && b is Some ==> {
            &&& final(fresh)@[i as int].links@ == old(fresh)@[i as int].links@.update(
                a->0 as int,
                (start + j) as i32,
            )
            &&& final(fresh)@[j as int].links@ == old(fresh)@[j as int].links@.update(
                b->0 as int,
                (start + i) as i32,
            )
        },
        !(m.dist.less(limit) && num(0x38d1_b717).less(m.dist) && a is Some && b is Some)
            ==> final(fresh)@[e].links@ == old(fresh)@[e].links@,
{
    let from = old(fresh)@;
    match pair_ports(from[i as int].links@, from[j as int].links@, m, limit) {
        Some((x, y)) => {
            assert(final(fresh)@[e].same_but_links(from[e]));
        },
        None => {},
    }
}

/// An update writes the number of its target into its slot of its particle, and nowhere else.
pub proof fn law_update_writes_one_slot(
    existing: Vec<Particle>,
    updates: Vec<LinkUpdate>,
    r: Vec<Particle>,
    e: int,
    k: int,
)
    requires
        updates@.len() <= 1,
        updates@.len() == 1 ==> {
            &&& updates@[0].particle < existing@.len()
            &&& updates@[0].slot < 6
            &&& updates@[0].target <= i32::MAX
        },
        call_ensures(apply_updates, (&existing, &updates), r),
        0 <= k < 6,
    ensures
        r@.len() == existing@.len(),
        0 <= e < existing@.len() ==> {
            &&& r@[e].pos == existing@[e].pos
            &&& r@[e].vel == existing@[e].vel
            &&& r@[e].charge == existing@[e].charge
            &&& r@[e].angle == existing@[e].angle
            &&& r@[e].temperature == existing@[e].temperature
            &&& r@[e].mat_type == existing@[e].mat_type
            &&& r@[e].inv_mass == existing@[e].inv_mass
            &&& r@[e].grav_scale == existing@[e].grav_scale
            &&& updates@.len() == 1 && updates@[0].particle == e && updates@[0].slot == k
                ==> r@[e].links@[k] == updates@[0].target
            &&& updates@.len() == 0 || updates@[0].particle != e || updates@[0].slot != k
                ==> r@[e].links@[k] == existing@[e].links@[k]
        },
{
    let _ = r@[e];
    reveal_with_fuel(updated_links, 2);
}

proof fn lemma_updates_split(
    links: Seq<i32>,
    first: Seq<LinkUpdate>,
    rest: Seq<LinkUpdate>,
    e: int,
    n: int,
)
    requires
        0 <= n <= rest.len(),
    ensures
        updated_links(links, first + rest, e, first.len() + n) == updated_links(
            updated_links(links, first, e, first.len() as int),
            rest,
            e,
            n,
        ),
    decreases n,
{
    if n > 0 {
        lemma_updates_split(links, first, rest, e, n - 1);
        assert((first + rest)[first.len() + n - 1] == rest[n - 1]);
    } else {
        lemma_updates_prefix(links, first, rest, e, first.len() as int);
    }
}

proof fn lemma_updates_prefix(
    links: Seq<i32>,
    first: Seq<LinkUpdate>,
    rest: Seq<LinkUpdate>,
    e: int,
    n: int,
)
    requires
        0 <= n <= first.len(),
    ensures
        updated_links(links, first + rest, e, n) == updated_links(links, first, e, n),
    decreases n,
{
    if n > 0 {
        lemma_updates_prefix(links, first, rest, e, n - 1);
        assert((first + rest)[n - 1] == first[n - 1]);
    }
}

/// Updates are made one after the other: making a list of them is making its first part, and making
/// the rest of what comes out.
pub proof fn law_updates_are_made_in_order(
    existing: Vec<Particle>,
    updates: Vec<LinkUpdate>,
    first: Vec<LinkUpdate>,
    rest: Vec<LinkUpdate>,
    r: Vec<Particle>,
    a: Vec<Particle>,
    b: Vec<Particle>,
    e: int,
)
    requires
        updates@ == first@ + rest@,
        forall|u: int|
            0 <= u < updates@.len() ==> {
                &&& (#[trigger] updates@[u]).particle < existing@.len()
                &&& updates@[u].slot < 6
                &&& updates@[u].target <= i32::MAX
            },
        call_ensures(apply_updates, (&existing, &updates), r),
        call_ensures(apply_updates, (&existing, &first), a),
        call_ensures(apply_updates, (&a, &rest), b),
        0 <= e < existing@.len(),
    ensures
        r@.len() == b@.len(),
        r@[e].links@ == b@[e].links@,
        r@[e].pos == b@[e].pos,
        r@[e].vel == b@[e].vel,
        r@[e].charge == b@[e].charge,
        r@[e].angle == b@[e].angle,
        r@[e].temperature == b@[e].temperature,
        r@[e].mat_type == b@[e].mat_type,
        r@[e].inv_mass == b@[e].inv_mass,
        r@[e].grav_scale == b@[e].grav_scale,
{
    assert forall|u: int| 0 <= u < first@.len() implies {
        &&& (#[trigger] first@[u]).particle < existing@.len()
        &&& first@[u].slot < 6
        &&& first@[u].target <= i32::MAX
    } by {
        assert(updates@[u] == first@[u]);
    }
    assert forall|u: int| 0 <= u < rest@.len() implies {
        &&& (#[trigger] rest@[u]).particle < existing@.len()
        &&& rest@[u].slot < 6
        &&& rest@[u].target <= i32::MAX
    } by {
        assert(updates@[first@.len() + u] == rest@[u]);
    }
    let _ = r@[e];
    let _ = a@[e];
    let _ = b@[e];
    lemma_updates_split(existing@[e].links@, first@, rest@, e, rest@.len() as int);
}

/// Ties to the first parents do not depend on those after them.
proof fn lemma_parents_prefix(
    parents: Seq<Bud>,
    fewer: Seq<Bud>,
    readings: Seq<GrowthReading>,
    target: u32,
    n: int,
)
    requires
        0 <= n <= fewer.len() <= parents.len(),
        forall|b: int| 0 <= b < fewer.len() ==> #[trigger] fewer[b] == parents[b],
    ensures
        tied_to_parents(parents, readings, target, n) == tied_to_parents(
            fewer,
            readings,
            target,
            n,
        ),
    decreases n,
{
    if n > 0 {
        lemma_parents_prefix(parents, fewer, readings, target, n - 1);
        assert(fewer[n - 1] == parents[n - 1]);
    }
}

/// Without bystanders at bonding distance, the ties are those to the parents.
proof fn lemma_no_bystanders(
    ps: Seq<Particle>,
    parents: Seq<Bud>,
    readings: Seq<GrowthReading>,
    limit: Single,
    target: u32,
    n: int,
)
    requires
        0 <= n <= ps.len(),
        readings.len() == ps.len(),
        forall|e: int| 0 <= e < readings.len() ==> !(#[trigger] readings[e]).dist.less(limit),
    ensures
        tied_to_bystanders(ps, parents, readings, limit, target, n) == tied_to_bystanders(
            ps,
            parents,
            readings,
            limit,
            target,
            0,
        ),
    decreases n,
{
    if n > 0 {
        lemma_no_bystanders(ps, parents, readings, limit, target, n - 1);
        assert(!readings[n - 1].dist.less(limit));
    }
}

/// Parents are tied one after the other: with nothing else at bonding distance, a further parent, up
/// to the sixth, takes the free port that sees it best, if one does, and is to link back through its
/// bud; a seventh is not tied. With one parent that is the only link.
pub proof fn law_parents_are_tied_one_by_one(
    existing: Vec<Particle>,
    sprout: Sprout,
    shorter: Sprout,
    readings: Vec<GrowthReading>,
    limit: Single,
    target: u32,
    mat: u32,
    inv_mass: Single,
    grav_scale: Single,
    r: (Particle, Vec<LinkUpdate>),
    s: (Particle, Vec<LinkUpdate>),
    port: Option<usize>,
    first: Option<usize>,
    empty: [i32; 6],
)
    requires
        existing@.len() <= i32::MAX,
        readings@.len() == existing@.len(),
        sprout.parents@.len() > 1,
        forall|b: int|
            0 <= b < sprout.parents@.len() ==> (#[trigger] sprout.parents@[b]).particle
                < existing@.len(),
        forall|e: int| 0 <= e < readings@.len() ==> !(#[trigger] readings@[e]).dist.less(limit),
        shorter.parents@ == sprout.parents@.drop_last(),
        call_ensures(
            grow_one,
            (&existing, &sprout, &readings, limit, target, mat, inv_mass, grav_scale),
            r,
        ),
        call_ensures(
            grow_one,
            (&existing, &shorter, &readings, limit, target, mat, inv_mass, grav_scale),
            s,
        ),
        call_ensures(
            find_port,
            (
                &s.0.links,
                &readings@[sprout.parents@.last().particle as int].gaps,
                num(0x42c8_0000),
            ),
            port,
        ),
        forall|k: int| 0 <= k < 6 ==> #[trigger] empty@[k] == -1,
        call_ensures(
            find_port,
            (
                &empty,
                &readings@[sprout.parents@[0].particle as int].gaps,
                num(0x42c8_0000),
            ),
            first,
        ),
    ensures
        sprout.parents@.len() <= 6 && port is Some ==> {
            &&& r.0.links@ == s.0.links@.update(
                port->0 as int,
                sprout.parents@.last().particle as i32,
            )
            &&& r.1@.len() == s.1@.len() + 1
            &&& r.1@.drop_last() == s.1@
            &&& r.1@.last().particle == sprout.parents@.last().particle
            &&& r.1@.last().slot == sprout.parents@.last().slot
            &&& r.1@.last().target == target
        },
        sprout.parents@.len() > 6 || port is None ==> r.0.links@ == s.0.links@ && r.1@ == s.1@,
        sprout.parents@.len() == 2 && first is Some ==> s.0.links@ == empty@.update(
            first->0 as int,
            sprout.parents@[0].particle as i32,
        ) && s.1@.len() == 1,
        sprout.parents@.len() == 2 && first is None ==> s.0.links@ == empty@ && s.1@.len() == 0,
{
    let (parents, fewer) = (sprout.parents@, shorter.parents@);
    let n = existing@.len() as int;
    assert forall|b: int| 0 <= b < fewer.len() implies (#[trigger] fewer[b]).particle
        < existing@.len() by {
        assert(fewer[b] == parents[b]);
    }
    lemma_no_bystanders(existing@, parents, readings@, limit, target, n);
    lemma_no_bystanders(existing@, fewer, readings@, limit, target, n);
    let m = if parents.len() <= 6 {
        parents.len() - 1
    } else {
        6
    };
    lemma_parents_prefix(parents, fewer, readings@, target, m);
    if parents.len() == 2 {
        reveal_with_fuel(tied_to_parents, 2);
        assert(empty@ =~= seq![NO_LINK, NO_LINK, NO_LINK, NO_LINK, NO_LINK, NO_LINK]);
        assert(fewer[0] == parents[0]);
    }
    if parents.len() <= 6 && port is Some {
        assert(r.1@.drop_last() =~= s.1@);
    }
}

/// Ties to the first particles do not depend on those after them.
proof fn lemma_bystanders_prefix(
    ps: Seq<Particle>,
    fewer: Seq<Particle>,
    parents: Seq<Bud>,
    readings: Seq<GrowthReading>,
    less: Seq<GrowthReading>,
    limit: Single,
    target: u32,
    n: int,
)
    requires
        0 <= n <= fewer.len() <= ps.len(),
        readings.len() == ps.len(),
        less.len() == fewer.len(),
        forall|e: int| 0 <= e < fewer.len() ==> #[trigger] fewer[e] == ps[e],
        forall|e: int| 0 <= e < fewer.len() ==> #[trigger] less[e] == readings[e],
        forall|b: int| 0 <= b < parents.len() ==> (#[trigger] parents[b]).particle < fewer.len(),
    ensures
        tied_to_bystanders(ps, parents, readings, limit, target, n) == tied_to_bystanders(
            fewer,
            parents,
            less,
            limit,
            target,
            n,
        ),
    decreases n,
{
    if n > 0 {
        lemma_bystanders_prefix(ps, fewer, parents, readings, less, limit, target, n - 1);
        assert(fewer[n - 1] == ps[n - 1]);
        assert(less[n - 1] == readings[n - 1]);
    } else {
        lemma_parents_readings(
            parents,
            readings,
            less,
            target,
            if parents.len() < 6 {
                parents.len() as int
            } else {
                6
            },
        );
    }
}

/// Ties to parents depend on the readings of the parents alone.
proof fn lemma_parents_readings(
    parents: Seq<Bud>,
    readings: Seq<GrowthReading>,
    less: Seq<GrowthReading>,
    target: u32,
    n: int,
)
    requires
        0 <= n <= parents.len(),
        less.len() <= readings.len(),
        forall|e: int| 0 <= e < less.len() ==> #[trigger] less[e] == readings[e],
        forall|b: int| 0 <= b < parents.len() ==> (#[trigger] parents[b]).particle < less.len(),
    ensures
        tied_to_parents(parents, readings, target, n) == tied_to_parents(
            parents,
            less,
            target,
            n,
        ),
    decreases n,
{
    if n > 0 {
        lemma_parents_readings(parents, readings, less, target, n - 1);
        assert(parents[n - 1].particle < less.len());
        assert(less[parents[n - 1].particle as int] == readings[parents[n - 1].particle as int]);
    }
}

/// Bystanders are tied one after the other: a further particle that is no parent is tied exactly if
/// fewer than six are, it is there, it lies at bonding distance but not in the same place, a free
/// port sees it within 0.6, and it has a free slot. It takes the port that sees it best and is to
/// link back through its first free slot. Nothing else changes.
pub proof fn law_bystanders_are_tied_one_by_one(
    existing: Vec<Particle>,
    fewer: Vec<Particle>,
    sprout: Sprout,
    readings: Vec<GrowthReading>,
    less: Vec<GrowthReading>,
    limit: Single,
    target: u32,
    mat: u32,
    inv_mass: Single,
    grav_scale: Single,
    r: (Particle, Vec<LinkUpdate>),
    s: (Particle, Vec<LinkUpdate>),
    port: Option<usize>,
    slot: Option<usize>,
)
    requires
        existing@.len() <= i32::MAX,
        readings@.len() == existing@.len(),
        existing@.len() > 0,
        fewer@ == existing@.drop_last(),
        less@ == readings@.drop_last(),
        sprout.parents@.len() > 0,
        forall|b: int|
            0 <= b < sprout.parents@.len() ==> (#[trigger] sprout.parents@[b]).particle
                < fewer@.len(),
        call_ensures(
            grow_one,
            (&existing, &sprout, &readings, limit, target, mat, inv_mass, grav_scale),
            r,
        ),
        call_ensures(
            grow_one,
            (&fewer, &sprout, &less, limit, target, mat, inv_mass, grav_scale),
            s,
        ),
        call_ensures(find_port, (&s.0.links, &readings@.last().gaps, num(0x3f19_999a)), port),
        call_ensures(free_slot, (&existing@.last().links,), slot),
    ensures
        ({
            let e = existing@.len() - 1;
            let tied = s.1@.len() < 6 && existing@[e].mat_type & 0x4000_0000 == 0
                && readings@[e].dist.less(limit) && num(0x38d1_b717).less(readings@[e].dist)
                && port is Some && slot is Some;
            &&& tied ==> {
                &&& r.0.links@ == s.0.links@.update(port->0 as int, e as i32)
                &&& r.1@.len() == s.1@.len() + 1
                &&& r.1@.drop_last() == s.1@
                &&& r.1@.last().particle == e
                &&& r.1@.last().slot == slot->0
                &&& r.1@.last().target == target
            }
            &&& !tied ==> r.0.links@ == s.0.links@ && r.1@ == s.1@
        }),
{
    let n = existing@.len() as int;
    let e = n - 1;
    lemma_bystanders_prefix(
        existing@,
        fewer@,
        sprout.parents@,
        readings@,
        less@,
        limit,
        target,
        n - 1,
    );
    assert(!is_parent(sprout.parents@, e)) by {
        assert forall|b: int| 0 <= b < sprout.parents@.len() implies (
        #[trigger] sprout.parents@[b]).particle != e by {}
    }
    let own = existing@[e].links@;
    match slot {
        Some(f) => {
            assert(first_free(own, f as int));
            let other = choose|t: int| first_free(own, t);
            lemma_first_free_is_unique(own, f as int, other);
        },
        None => {
            if exists|t: int| first_free(own, t) {
                let t = choose|t: int| first_free(own, t);
                assert(own[t] == NO_LINK);
                assert(own.contains(NO_LINK));
            }
        },
    }
    if r.1@.len() > s.1@.len() {
        assert(r.1@.drop_last() =~= s.1@);
    }
}

} // verus!
