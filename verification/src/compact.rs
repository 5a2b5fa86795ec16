//! Taking a selection out of a list of particles: closing the gaps that removed particles leave,
//! copying a region and pasting the copy. Links are renumbered so that they go on naming the
//! same particles.
use vstd::prelude::*;
use crate::area::Area;
use crate::particle::{Particle, NO_LINK};
use crate::single::Single;

verus! {

/// How many of the first `i` entries are kept.
pub open spec fn kept_before(keep: Seq<bool>, i: int) -> int
    decreases i,
{
    if i <= 0 {
        0
    } else {
        kept_before(keep, i - 1) + if keep[i - 1] {
            1int
        } else {
            0int
        }
    }
}

/// The new number of particle `l`, or no link where it is not kept.
pub open spec fn renumbered(keep: Seq<bool>, l: i32) -> i32 {
    if 0 <= l < keep.len() && keep[l as int] {
        kept_before(keep, l as int) as i32
    } else {
        NO_LINK
    }
}

/// The links of a kept particle after renumbering. With `bare`, an entry that names no particle
/// stays as it is.
pub open spec fn relinked(keep: Seq<bool>, links: Seq<i32>, bare: bool) -> Seq<i32> {
    Seq::new(
        links.len(),
        |k: int|
            if bare && links[k] < 0 {
                links[k]
            } else {
                renumbered(keep, links[k])
            },
    )
}

/// `to` holds the kept particles of `from`, in order, with their links renumbered.
pub open spec fn gathered(
    from: Seq<Particle>,
    keep: Seq<bool>,
    bare: bool,
    to: Seq<Particle>,
) -> bool {
    &&& keep.len() == from.len()
    &&& to.len() == kept_before(keep, from.len() as int)
    &&& forall|i: int|
        #![trigger from[i]]
        0 <= i < from.len() && keep[i] ==> {
            let q = to[kept_before(keep, i)];
            &&& q.links@ == relinked(keep, from[i].links@, bare)
            &&& q.same_but_links(from[i])
        }
}

/// Which particles are not removed.
pub open spec fn alive(ps: Seq<Particle>) -> Seq<bool> {
    Seq::new(ps.len(), |i: int| !ps[i].removed())
}

/// Which particles lie in a rectangle.
pub open spec fn boxed(ps: Seq<Particle>, area: Area) -> Seq<bool> {
    Seq::new(ps.len(), |i: int| area.holds(ps[i].pos@))
}

/// No more entries are kept than there are.
proof fn lemma_kept_bounds(keep: Seq<bool>, i: int)
    requires
        0 <= i,
    ensures
        0 <= kept_before(keep, i) <= i,
    decreases i,
{
    if i > 0 {
        lemma_kept_bounds(keep, i - 1);
    }
}

/// The count of kept entries never falls, and rises past a kept one.
proof fn lemma_kept_grows(keep: Seq<bool>, i: int, j: int)
    requires
        0 <= i <= j,
    ensures
        kept_before(keep, i) <= kept_before(keep, j),
        i < j && keep[i] ==> kept_before(keep, i) < kept_before(keep, j),
    decreases j - i,
{
    if i < j {
        lemma_kept_grows(keep, i, j - 1);
        if i == j - 1 {
            assert(kept_before(keep, j) == kept_before(keep, j - 1) + if keep[j - 1] {
                1int
            } else {
                0int
            });
        }
    }
}

/// Every number below the count of kept entries belongs to exactly one kept entry.
proof fn lemma_source_of(keep: Seq<bool>, n: int, q: int) -> (i: int)
    requires
        0 <= n,
        0 <= q < kept_before(keep, n),
    ensures
        0 <= i < n,
        keep[i],
        kept_before(keep, i) == q,
    decreases n,
{
    if n > 0 && keep[n - 1] && kept_before(keep, n - 1) == q {
        n - 1
    } else if n > 0 {
        lemma_source_of(keep, n - 1, q)
    } else {
        0
    }
}

/// With nothing left out, every entry keeps its number.
proof fn lemma_all_kept(keep: Seq<bool>, i: int)
    requires
        0 <= i <= keep.len(),
        forall|k: int| 0 <= k < keep.len() ==> keep[k],
    ensures
        kept_before(keep, i) == i,
    decreases i,
{
    if i > 0 {
        lemma_all_kept(keep, i - 1);
    }
}

/// The kept particles in order, with their links renumbered.
fn gather(from: &Vec<Particle>, keep: &Vec<bool>, bare: bool) -> (to: Vec<Particle>)
    requires
        from@.len() == keep@.len(),
        from@.len() <= i32::MAX,
    ensures
        gathered(from@, keep@, bare, to@),
{
    let n: usize = from.len();
    let mut index_map: Vec<i32> = Vec::new();
    let mut to: Vec<Particle> = Vec::new();
    let mut i: usize = 0;
    while i < n
        invariant
            i <= n,
            n == from@.len(),
            n == keep@.len(),
            n <= i32::MAX,
            index_map@.len() == i,
            to@.len() == kept_before(keep@, i as int),
            to@.len() <= i,
            forall|j: int|
                0 <= j < i ==> #[trigger] index_map@[j] == renumbered(keep@, j as i32),
            forall|j: int|
                #![trigger keep@[j]]
                0 <= j < i && keep@[j] ==> {
                    &&& 0 <= kept_before(keep@, j) < to@.len()
                    &&& to@[kept_before(keep@, j)] == from@[j]
                },
        decreases n - i,
    {
        proof {
            lemma_kept_bounds(keep@, i as int);
        }
        if keep[i] {
            index_map.push(to.len() as i32);
            to.push(from[i]);
        } else {
            index_map.push(NO_LINK);
        }
        i += 1;
    }
    let ghost picked = to@;
    let mut t: usize = 0;
    while t < to.len()
        invariant
            t <= to@.len(),
            n == keep@.len(),
            n <= i32::MAX,
            index_map@.len() == n,
            forall|j: int|
                0 <= j < n ==> #[trigger] index_map@[j] == renumbered(keep@, j as i32),
            to@.len() == picked.len(),
            forall|j: int|
                0 <= j < t ==> (#[trigger] to@[j]).same_but_links(picked[j]) && to@[j].links@
                    == relinked(keep@, picked[j].links@, bare),
            forall|j: int| t <= j < to@.len() ==> #[trigger] to@[j] == picked[j],
        decreases to@.len() - t,
    {
        let mut q: Particle = to[t];
        let mut k: usize = 0;
        while k < 6
            invariant
                k <= 6,
                n == keep@.len(),
                n <= i32::MAX,
                index_map@.len() == n,
                forall|j: int|
                    0 <= j < n ==> #[trigger] index_map@[j] == renumbered(keep@, j as i32),
                t < picked.len(),
                q.same_but_links(picked[t as int]),
                forall|j: int|
                    0 <= j < k ==> #[trigger] q.links@[j] == relinked(
                        keep@,
                        picked[t as int].links@,
                        bare,
                    )[j],
                forall|j: int|
                    k <= j < 6 ==> #[trigger] q.links@[j] == picked[t as int].links@[j],
            decreases 6 - k,
        {
            let l: i32 = q.links[k];
            if l >= 0 && (l as usize) < n {
                q.links[k] = index_map[l as usize];
            } else if !bare || l >= 0 {
                q.links[k] = NO_LINK;
            }
            k += 1;
        }
        assert(q.links@ =~= relinked(keep@, picked[t as int].links@, bare));
        to[t] = q;
        t += 1;
    }
    to
}

/// Closes the gaps that removed particles leave. A link to a removed particle, or to none at
/// all, becomes free.
pub fn compact(particles: &Vec<Particle>) -> (r: Vec<Particle>)
    requires
        particles@.len() <= i32::MAX,
    ensures
        gathered(particles@, alive(particles@), false, r@),
{
    let mut keep: Vec<bool> = Vec::new();
    let mut i: usize = 0;
    while i < particles.len()
        invariant
            i <= particles@.len(),
            keep@.len() == i,
            forall|j: int| 0 <= j < i ==> #[trigger] keep@[j] == !particles@[j].removed(),
        decreases particles@.len() - i,
    {
        keep.push(!particles[i].is_removed());
        i += 1;
    }
    assert(keep@ =~= alive(particles@));
    gather(particles, &keep, false)
}

/// What the list becomes after closing the gaps, or `None` where no particle is removed and the
/// list stays as it is.
pub fn collect_garbage(particles: &Vec<Particle>) -> (r: Option<Vec<Particle>>)
    requires
        particles@.len() <= i32::MAX,
    ensures
        r is None <==> forall|i: int| 0 <= i < particles@.len() ==> !particles@[i].removed(),
        r is None <==> !alive(particles@).contains(false),
        r matches Some(v) ==> gathered(particles@, alive(particles@), false, v@),
{
    let r: Vec<Particle> = compact(particles);
    proof {
        let keep = alive(particles@);
        let n = particles@.len() as int;
        if forall|i: int| 0 <= i < n ==> !particles@[i].removed() {
            lemma_all_kept(keep, n);
        } else {
            let i = choose|i: int| 0 <= i < n && particles@[i].removed();
            lemma_gap(keep, i, n);
        }
    }
    if r.len() != particles.len() {
        Some(r)
    } else {
        None
    }
}

/// Something left out makes the count fall short.
proof fn lemma_gap(keep: Seq<bool>, i: int, n: int)
    requires
        0 <= i < n,
        !keep[i],
    ensures
        kept_before(keep, n) < n,
    decreases n,
{
    if i == n - 1 {
        lemma_kept_bounds(keep, i);
    } else {
        lemma_gap(keep, i, n - 1);
    }
}

/// Copies the particles in a rectangle, or `None` where it holds none. A link that leaves the
/// rectangle becomes free.
pub fn copy_box(particles: &Vec<Particle>, area: Area) -> (r: Option<Vec<Particle>>)
    requires
        particles@.len() <= i32::MAX,
    ensures
        r is None <==> forall|i: int| 0 <= i < particles@.len() ==> !area.holds(particles@[i].pos@),
        r is None <==> !boxed(particles@, area).contains(true),
        r matches Some(v) ==> gathered(particles@, boxed(particles@, area), true, v@),
{
    let mut keep: Vec<bool> = Vec::new();
    let mut i: usize = 0;
    while i < particles.len()
        invariant
            i <= particles@.len(),
            keep@.len() == i,
            forall|j: int| 0 <= j < i ==> #[trigger] keep@[j] == area.holds(particles@[j].pos@),
        decreases particles@.len() - i,
    {
        keep.push(area.contains(particles[i].pos));
        i += 1;
    }
    assert(keep@ =~= boxed(particles@, area));
    let r: Vec<Particle> = gather(particles, &keep, true);
    proof {
        let n = particles@.len() as int;
        if forall|i: int| 0 <= i < n ==> !area.holds(particles@[i].pos@) {
            lemma_none_kept(keep@, n);
        } else {
            let i = choose|i: int| 0 <= i < n && area.holds(particles@[i].pos@);
            lemma_kept_bounds(keep@, i);
            lemma_kept_grows(keep@, i, n);
        }
    }
    if r.len() > 0 {
        Some(r)
    } else {
        None
    }
}

/// With everything left out, nothing is counted.
proof fn lemma_none_kept(keep: Seq<bool>, i: int)
    requires
        0 <= i <= keep.len(),
        forall|k: int| 0 <= k < keep.len() ==> !keep[k],
    ensures
        kept_before(keep, i) == 0,
    decreases i,
{
    if i > 0 {
        lemma_none_kept(keep, i - 1);
    }
}

/// A pasted particle's links: those that name a particle move up by `start`.
pub open spec fn shifted(links: Seq<i32>, start: int) -> Seq<i32> {
    Seq::new(
        links.len(),
        |k: int|
            if links[k] >= 0 {
                (links[k] + start) as i32
            } else {
                links[k]
            },
    )
}

/// No link of the blueprint outgrows the numbers that links can hold when it moves up.
pub open spec fn shiftable(blueprint: Seq<Particle>, start: int) -> bool {
    forall|i: int, k: int|
        0 <= i < blueprint.len() && 0 <= k < 6 ==> #[trigger] blueprint[i].links@[k] + start
            <= i32::MAX
}

/// There is room for the blueprint after the active particles.
pub open spec fn fits(blueprint: Seq<Particle>, active: u32, capacity: u32) -> bool {
    active + blueprint.len() <= capacity
}

/// Whether no link of the blueprint outgrows the numbers that links can hold.
pub fn is_shiftable(blueprint: &Vec<Particle>, start: u32) -> (r: bool)
    ensures
        r == shiftable(blueprint@, start as int),
{
    let mut i: usize = 0;
    while i < blueprint.len()
        invariant
            i <= blueprint@.len(),
            forall|j: int, k: int|
                0 <= j < i && 0 <= k < 6 ==> #[trigger] blueprint@[j].links@[k] + start
                    <= i32::MAX,
        decreases blueprint@.len() - i,
    {
        let mut k: usize = 0;
        while k < 6
            invariant
                k <= 6,
                i < blueprint@.len(),
                forall|j: int|
                    0 <= j < k ==> #[trigger] blueprint@[i as int].links@[j] + start <= i32::MAX,
            decreases 6 - k,
        {
            if blueprint[i].links[k] as i64 + start as i64 > i32::MAX as i64 {
                assert(blueprint@[i as int].links@[k as int] + start > i32::MAX);
                return false;
            }
            k += 1;
        }
        i += 1;
    }
    true
}

/// The particles that a paste adds after the `active` ones, or `None` where they do not fit.
/// `places` are their positions.
pub fn paste(
    blueprint: &Vec<Particle>,
    places: &Vec<[Single; 2]>,
    active: u32,
    capacity: u32,
) -> (r: Option<Vec<Particle>>)
    requires
        places@.len() == blueprint@.len(),
        fits(blueprint@, active, capacity) ==> shiftable(blueprint@, active as int),
    ensures
        r is Some <==> fits(blueprint@, active, capacity),
        r matches Some(v) ==> {
            &&& v@.len() == blueprint@.len()
            &&& forall|i: int|
                0 <= i < v@.len() ==> {
                    &&& (#[trigger] v@[i]).links@ == shifted(blueprint@[i].links@, active as int)
                    &&& v@[i] == (Particle {
                        pos: places@[i],
                        links: v@[i].links,
                        ..blueprint@[i]
                    })
                }
        },
{
    if active as u64 > capacity as u64 || blueprint.len() as u64 > capacity as u64 - active as u64 {
        return None;
    }
    let mut v: Vec<Particle> = Vec::new();
    let mut i: usize = 0;
    while i < blueprint.len()
        invariant
            i <= blueprint@.len(),
            places@.len() == blueprint@.len(),
            shiftable(blueprint@, active as int),
            v@.len() == i,
            forall|j: int|
                0 <= j < i ==> {
                    &&& (#[trigger] v@[j]).links@ == shifted(blueprint@[j].links@, active as int)
                    &&& v@[j] == (Particle {
                        pos: places@[j],
                        links: v@[j].links,
                        ..blueprint@[j]
                    })
                },
        decreases blueprint@.len() - i,
    {
        let mut q: Particle = blueprint[i];
        q.pos = places[i];
        let mut k: usize = 0;
        while k < 6
            invariant
                k <= 6,
                i < blueprint@.len(),
                shiftable(blueprint@, active as int),
                q == (Particle { pos: places@[i as int], links: q.links, ..blueprint@[i as int] }),
                forall|j: int|
                    0 <= j < k ==> #[trigger] q.links@[j] == shifted(
                        blueprint@[i as int].links@,
                        active as int,
                    )[j],
                forall|j: int|
                    k <= j < 6 ==> #[trigger] q.links@[j] == blueprint@[i as int].links@[j],
            decreases 6 - k,
        {
            let l: i32 = q.links[k];
            assert(blueprint@[i as int].links@[k as int] + active <= i32::MAX);
            if l >= 0 {
                q.links[k] = l + active as i32;
            }
            k += 1;
        }
        assert(q.links@ =~= shifted(blueprint@[i as int].links@, active as int));
        v.push(q);
        i += 1;
    }
    Some(v)
}

/// Every gathered particle comes from one kept particle, and the order stays: of two kept
/// particles the earlier one comes first.
pub proof fn law_gathering_keeps_order(
    from: Seq<Particle>,
    keep: Seq<bool>,
    bare: bool,
    to: Seq<Particle>,
    i: int,
    j: int,
)
    requires
        gathered(from, keep, bare, to),
        0 <= i < j < from.len(),
        keep[i],
        keep[j],
    ensures
        0 <= kept_before(keep, i) < kept_before(keep, j) < to.len(),
{
    lemma_kept_bounds(keep, i);
    lemma_kept_grows(keep, i, j);
    lemma_kept_grows(keep, j, from.len() as int);
}

/// No removed particle is left after closing the gaps.
pub proof fn law_compaction_leaves_none_removed(from: Seq<Particle>, to: Seq<Particle>, q: int)
    requires
        gathered(from, alive(from), false, to),
        0 <= q < to.len(),
    ensures
        !to[q].removed(),
{
    let i = lemma_source_of(alive(from), from.len() as int, q);
    assert(to[kept_before(alive(from), i)].same_but_links(from[i]));
}

/// After gathering, a link names one of the gathered particles or none.
pub proof fn law_gathered_links_stay_inside(
    from: Seq<Particle>,
    keep: Seq<bool>,
    bare: bool,
    to: Seq<Particle>,
    q: int,
    k: int,
)
    requires
        gathered(from, keep, bare, to),
        from.len() <= i32::MAX,
        0 <= q < to.len(),
        0 <= k < 6,
    ensures
        to[q].links@[k] < to.len(),
        !bare ==> to[q].links@[k] >= NO_LINK,
{
    let n = from.len() as int;
    let i = lemma_source_of(keep, n, q);
    let l = from[i].links@[k];
    assert(to[kept_before(keep, i)].links@ == relinked(keep, from[i].links@, bare));
    if 0 <= l < n && keep[l as int] {
        lemma_kept_bounds(keep, l as int);
        lemma_kept_grows(keep, l as int, n);
        lemma_kept_bounds(keep, n);
    }
}

/// A link between two kept particles goes on joining the same two, in the same slot.
pub proof fn law_links_follow_their_particles(
    from: Seq<Particle>,
    keep: Seq<bool>,
    bare: bool,
    to: Seq<Particle>,
    i: int,
    j: int,
    k: int,
)
    requires
        gathered(from, keep, bare, to),
        from.len() <= i32::MAX,
        0 <= i < from.len(),
        0 <= j < from.len(),
        keep[i],
        keep[j],
        0 <= k < 6,
    ensures
        from[i].links@[k] == j <==> to[kept_before(keep, i)].links@[k] == kept_before(keep, j),
{
    let n = from.len() as int;
    let l = from[i].links@[k];
    assert(to[kept_before(keep, i)].links@ == relinked(keep, from[i].links@, bare));
    lemma_kept_bounds(keep, j);
    if 0 <= l < n && keep[l as int] {
        lemma_kept_bounds(keep, l as int);
        if l < j {
            lemma_kept_grows(keep, l as int, j);
        } else if j < l {
            lemma_kept_grows(keep, j, l as int);
        }
    }
}

/// Closing the gaps a second time changes nothing.
pub proof fn law_compaction_is_idempotent(
    from: Seq<Particle>,
    once: Seq<Particle>,
    twice: Seq<Particle>,
)
    requires
        from.len() <= i32::MAX,
        gathered(from, alive(from), false, once),
        gathered(once, alive(once), false, twice),
    ensures
        twice.len() == once.len(),
        forall|q: int|
            0 <= q < once.len() ==> (#[trigger] twice[q]).same_but_links(once[q])
                && twice[q].links@ == once[q].links@,
{
    let keep = alive(once);
    let m = once.len() as int;
    lemma_kept_bounds(alive(from), from.len() as int);
    assert forall|q: int| 0 <= q < m implies keep[q] by {
        law_compaction_leaves_none_removed(from, once, q);
    }
    lemma_all_kept(keep, m);
    assert forall|q: int| 0 <= q < m implies (#[trigger] twice[q]).same_but_links(once[q])
        && twice[q].links@ == once[q].links@ by {
        lemma_all_kept(keep, q);
        let _ = once[q];
        assert(twice[q].links@ == relinked(keep, once[q].links@, false));
        assert forall|k: int| 0 <= k < 6 implies relinked(keep, once[q].links@, false)[k]
            == once[q].links@[k] by {
            law_gathered_links_stay_inside(from, alive(from), false, once, q, k);
            let l = once[q].links@[k];
            if l >= 0 {
                lemma_all_kept(keep, l as int);
            }
        }
        assert(twice[q].links@ =~= once[q].links@);
    }
}

/// What is pasted after a copy is linked only within itself: every link of a pasted particle
/// names a pasted particle, at the same distance as in the copy, or none.
pub proof fn law_pasted_copy_is_self_contained(
    from: Seq<Particle>,
    keep: Seq<bool>,
    copy: Seq<Particle>,
    active: u32,
    capacity: u32,
    i: int,
    k: int,
)
    requires
        gathered(from, keep, true, copy),
        from.len() <= i32::MAX,
        fits(copy, active, capacity),
        capacity <= i32::MAX,
        0 <= i < copy.len(),
        0 <= k < 6,
    ensures
        shiftable(copy, active as int),
        copy[i].links@[k] >= 0 ==> active <= shifted(copy[i].links@, active as int)[k] < active
            + copy.len() && shifted(copy[i].links@, active as int)[k] == copy[i].links@[k]
            + active,
        copy[i].links@[k] < 0 ==> shifted(copy[i].links@, active as int)[k] < 0,
{
    assert forall|q: int, s: int| 0 <= q < copy.len() && 0 <= s < 6 implies #[trigger] copy[q].links@[s]
        + active <= i32::MAX by {
        law_gathered_links_stay_inside(from, keep, true, copy, q, s);
    }
    law_gathered_links_stay_inside(from, keep, true, copy, i, k);
}

/// Where each kept particle goes.
proof fn lemma_places(
    from: Seq<Particle>,
    keep: Seq<bool>,
    bare: bool,
    to: Seq<Particle>,
    q: int,
) -> (at: Seq<int>)
    requires
        gathered(from, keep, bare, to),
        from.len() <= i32::MAX,
    ensures
        at.len() == from.len(),
        forall|i: int, j: int|
            #![trigger at[i], at[j]]
            0 <= i < j < at.len() && keep[i] && keep[j] ==> at[i] < at[j],
        0 <= q < to.len() ==> exists|i: int|
            0 <= i < at.len() && keep[i] && #[trigger] at[i] == q,
        forall|i: int|
            0 <= i < at.len() && keep[i] ==> 0 <= #[trigger] at[i] < to.len()
                && to[at[i]].same_but_links(from[i]),
        forall|i: int, k: int|
            #![trigger at[i], from[i].links@[k]]
            0 <= i < at.len() && 0 <= k < 6 && keep[i] ==> {
                let l = from[i].links@[k];
                to[at[i]].links@[k] == if bare && l < 0 {
                    l as int
                } else if 0 <= l < from.len() && keep[l as int] {
                    at[l as int]
                } else {
                    -1
                }
            },
{
    let at = Seq::new(from.len(), |i: int| kept_before(keep, i));
    let n = from.len() as int;
    assert forall|i: int, j: int|
        #![trigger at[i], at[j]]
        0 <= i < j < at.len() && keep[i] && keep[j] implies at[i] < at[j] by {
        lemma_kept_grows(keep, i, j);
    }
    if 0 <= q < to.len() {
        let i = lemma_source_of(keep, n, q);
        assert(at[i] == q);
    }
    assert forall|i: int| 0 <= i < at.len() && keep[i] implies 0 <= #[trigger] at[i] < to.len()
        && to[at[i]].same_but_links(from[i]) by {
        lemma_kept_bounds(keep, i);
        lemma_kept_grows(keep, i, n);
        let _ = from[i];
    }
    assert forall|i: int, k: int|
        #![trigger at[i], from[i].links@[k]]
        0 <= i < at.len() && 0 <= k < 6 && keep[i] implies {
        let l = from[i].links@[k];
        to[at[i]].links@[k] == if bare && l < 0 {
            l as int
        } else if 0 <= l < from.len() && keep[l as int] {
            at[l as int]
        } else {
            -1
        }
    } by {
        let l = from[i].links@[k];
        assert(to[kept_before(keep, i)].links@ == relinked(keep, from[i].links@, bare));
        if 0 <= l < n {
            lemma_kept_bounds(keep, l as int);
        }
    }
    at
}

/// Closing the gaps keeps exactly the particles that are not removed: each goes, with everything it
/// has, to one place `at[i]` of the result, in the order they had, and every place `q` is taken by
/// one of them. A link to a kept particle goes on naming it; any other becomes free.
pub proof fn law_compaction_keeps_the_others(
    particles: Vec<Particle>,
    r: Vec<Particle>,
    q: int,
) -> (at: Seq<int>)
    requires
        particles@.len() <= i32::MAX,
        call_ensures(compact, (&particles,), r),
    ensures
        at.len() == particles@.len(),
        forall|i: int, j: int|
            #![trigger at[i], at[j]]
            0 <= i < j < at.len() && particles@[i].mat_type & 0x4000_0000 == 0
                && particles@[j].mat_type & 0x4000_0000 == 0 ==> at[i] < at[j],
        0 <= q < r@.len() ==> exists|i: int|
            0 <= i < at.len() && particles@[i].mat_type & 0x4000_0000 == 0 && #[trigger] at[i]
                == q,
        forall|i: int|
            0 <= i < at.len() && particles@[i].mat_type & 0x4000_0000 == 0 ==> {
                &&& 0 <= #[trigger] at[i] < r@.len()
                &&& r@[at[i]].pos == particles@[i].pos
                &&& r@[at[i]].vel == particles@[i].vel
                &&& r@[at[i]].charge == particles@[i].charge
                &&& r@[at[i]].angle == particles@[i].angle
                &&& r@[at[i]].temperature == particles@[i].temperature
                &&& r@[at[i]].mat_type == particles@[i].mat_type
                &&& r@[at[i]].inv_mass == particles@[i].inv_mass
                &&& r@[at[i]].grav_scale == particles@[i].grav_scale
            },
        forall|i: int, k: int|
            #![trigger at[i], particles@[i].links@[k]]
            0 <= i < at.len() && 0 <= k < 6 && particles@[i].mat_type & 0x4000_0000 == 0 ==> {
                let l = particles@[i].links@[k];
                &&& 0 <= l < particles@.len() && particles@[l as int].mat_type & 0x4000_0000 == 0
                    ==> r@[at[i]].links@[k] == at[l as int]
                &&& !(0 <= l < particles@.len() && particles@[l as int].mat_type & 0x4000_0000 == 0) ==> r@[at[i]].links@[k] == -1
            },
{
    let keep = alive(particles@);
    let at = lemma_places(particles@, keep, false, r@, q);
    assert forall|i: int| 0 <= i < at.len() implies #[trigger] keep[i] == (particles@[i].mat_type & 0x4000_0000 == 0) by {}
    if 0 <= q < r@.len() {
        let i = choose|i: int| 0 <= i < at.len() && keep[i] && #[trigger] at[i] == q;
        assert(at[i] == q && keep[i]);
    }
    at
}

/// Collecting the garbage gives what closing the gaps gives: the particles that are not removed,
/// with everything they have, in their order, with their links following them.
pub proof fn law_collection_keeps_the_others(
    particles: Vec<Particle>,
    r: Vec<Particle>,
    q: int,
) -> (at: Seq<int>)
    requires
        particles@.len() <= i32::MAX,
        call_ensures(collect_garbage, (&particles,), Some(r)),
    ensures
        at.len() == particles@.len(),
        forall|i: int, j: int|
            #![trigger at[i], at[j]]
            0 <= i < j < at.len() && particles@[i].mat_type & 0x4000_0000 == 0
                && particles@[j].mat_type & 0x4000_0000 == 0 ==> at[i] < at[j],
        0 <= q < r@.len() ==> exists|i: int|
            0 <= i < at.len() && particles@[i].mat_type & 0x4000_0000 == 0 && #[trigger] at[i]
                == q,
        forall|i: int|
            0 <= i < at.len() && particles@[i].mat_type & 0x4000_0000 == 0 ==> {
                &&& 0 <= #[trigger] at[i] < r@.len()
                &&& r@[at[i]].pos == particles@[i].pos
                &&& r@[at[i]].vel == particles@[i].vel
                &&& r@[at[i]].charge == particles@[i].charge
                &&& r@[at[i]].angle == particles@[i].angle
                &&& r@[at[i]].temperature == particles@[i].temperature
                &&& r@[at[i]].mat_type == particles@[i].mat_type
                &&& r@[at[i]].inv_mass == particles@[i].inv_mass
                &&& r@[at[i]].grav_scale == particles@[i].grav_scale
            },
        forall|i: int, k: int|
            #![trigger at[i], particles@[i].links@[k]]
            0 <= i < at.len() && 0 <= k < 6 && particles@[i].mat_type & 0x4000_0000 == 0 ==> {
                let l = particles@[i].links@[k];
                &&& 0 <= l < particles@.len() && particles@[l as int].mat_type & 0x4000_0000 == 0
                    ==> r@[at[i]].links@[k] == at[l as int]
                &&& !(0 <= l < particles@.len() && particles@[l as int].mat_type & 0x4000_0000 == 0) ==> r@[at[i]].links@[k] == -1
            },
{
    let keep = alive(particles@);
    let at = lemma_places(particles@, keep, false, r@, q);
    assert forall|i: int| 0 <= i < at.len() implies #[trigger] keep[i] == (particles@[i].mat_type & 0x4000_0000 == 0) by {}
    if 0 <= q < r@.len() {
        let i = choose|i: int| 0 <= i < at.len() && keep[i] && #[trigger] at[i] == q;
        assert(at[i] == q && keep[i]);
    }
    at
}

/// There is nothing to collect exactly if no particle carries the removal mark.
pub proof fn law_collection_is_needed_for_removed(
    particles: Vec<Particle>,
    r: Option<Vec<Particle>>,
    i: int,
)
    requires
        particles@.len() <= i32::MAX,
        call_ensures(collect_garbage, (&particles,), r),
    ensures
        0 <= i < particles@.len() && particles@[i].mat_type & 0x4000_0000 != 0 ==> r is Some,
        r is Some ==> exists|j: int|
            0 <= j < particles@.len() && (#[trigger] particles@[j]).mat_type & 0x4000_0000 != 0,
{
    if r is None && 0 <= i < particles@.len() {
        assert(alive(particles@)[i]);
    }
}

/// A copy holds exactly the particles inside the rectangle: each goes, with the position, velocity,
/// charge, angle, temperature, material, inverse mass and gravity factor it has, to one place
/// `at[i]` of the copy, in the order they had, and every place `q` is taken by one of them. A link
/// between two of them goes on joining them; one that leaves the rectangle becomes free; an empty
/// slot stays as it is.
pub proof fn law_copy_takes_what_lies_inside(
    particles: Vec<Particle>,
    area: Area,
    copy: Vec<Particle>,
    q: int,
) -> (at: Seq<int>)
    requires
        particles@.len() <= i32::MAX,
        call_ensures(copy_box, (&particles, area), Some(copy)),
    ensures
        at.len() == particles@.len(),
        forall|i: int, j: int|
            #![trigger at[i], at[j]]
            0 <= i < j < at.len() && area.holds(particles@[i].pos@)
                && area.holds(particles@[j].pos@) ==> at[i] < at[j],
        0 <= q < copy@.len() ==> exists|i: int|
            0 <= i < at.len() && area.holds(particles@[i].pos@) && #[trigger] at[i]
                == q,
        forall|i: int|
            0 <= i < at.len() && area.holds(particles@[i].pos@) ==> {
                &&& 0 <= #[trigger] at[i] < copy@.len()
                &&& copy@[at[i]].pos == particles@[i].pos
                &&& copy@[at[i]].vel == particles@[i].vel
                &&& copy@[at[i]].charge == particles@[i].charge
                &&& copy@[at[i]].angle == particles@[i].angle
                &&& copy@[at[i]].temperature == particles@[i].temperature
                &&& copy@[at[i]].mat_type == particles@[i].mat_type
                &&& copy@[at[i]].inv_mass == particles@[i].inv_mass
                &&& copy@[at[i]].grav_scale == particles@[i].grav_scale
            },
        forall|i: int, k: int|
            #![trigger at[i], particles@[i].links@[k]]
            0 <= i < at.len() && 0 <= k < 6 && area.holds(particles@[i].pos@) ==> {
                let l = particles@[i].links@[k];
                &&& 0 <= l < particles@.len() && area.holds(particles@[l as int].pos@)
                    ==> copy@[at[i]].links@[k] == at[l as int]
                &&& l >= 0 && !(l < particles@.len() && area.holds(particles@[l as int].pos@)) ==> copy@[at[i]].links@[k] == -1
                &&& l < 0 ==> copy@[at[i]].links@[k] == l
            },
{
    let keep = boxed(particles@, area);
    let at = lemma_places(particles@, keep, true, copy@, q);
    assert forall|i: int| 0 <= i < at.len() implies #[trigger] keep[i] == (area.holds(particles@[i].pos@)) by {}
    if 0 <= q < copy@.len() {
        let i = choose|i: int| 0 <= i < at.len() && keep[i] && #[trigger] at[i] == q;
        assert(at[i] == q && keep[i]);
    }
    at
}

/// There is something to copy exactly if a particle lies inside the rectangle.
pub proof fn law_copy_is_empty_outside(
    particles: Vec<Particle>,
    area: Area,
    r: Option<Vec<Particle>>,
    i: int,
)
    requires
        particles@.len() <= i32::MAX,
        call_ensures(copy_box, (&particles, area), r),
    ensures
        0 <= i < particles@.len() && area.min_x.at_most(particles@[i].pos@[0])
            && particles@[i].pos@[0].at_most(area.max_x) && area.min_y.at_most(
            particles@[i].pos@[1],
        ) && particles@[i].pos@[1].at_most(area.max_y) ==> r is Some,
        r matches Some(v) ==> v@.len() > 0,
{
    if 0 <= i < particles@.len() && r is None {
        assert(!boxed(particles@, area)[i]);
    }
    if r is Some {
        let keep = boxed(particles@, area);
        let j = choose|j: int| 0 <= j < keep.len() && keep[j];
        assert(keep[j]);
        lemma_kept_bounds(keep, j);
        lemma_kept_grows(keep, j, particles@.len() as int);
    }
}

/// Pasting keeps everything of a particle but its position, which is the given one, and its links,
/// which move up by the number of particles there are; an empty slot stays as it is. It is refused
/// exactly where there is no room.
pub proof fn law_paste_keeps_all_but_the_place(
    blueprint: Vec<Particle>,
    places: Vec<[Single; 2]>,
    active: u32,
    capacity: u32,
    r: Option<Vec<Particle>>,
    i: int,
    k: int,
)
    requires
        places@.len() == blueprint@.len(),
        active + blueprint@.len() <= capacity ==> forall|j: int, l: int|
            0 <= j < blueprint@.len() && 0 <= l < 6 ==> #[trigger] blueprint@[j].links@[l] + active
                <= i32::MAX,
        call_ensures(paste, (&blueprint, &places, active, capacity), r),
        0 <= i < blueprint@.len(),
        0 <= k < 6,
    ensures
        r is Some == (active + blueprint@.len() <= capacity),
        r matches Some(v) ==> {
            &&& v@.len() == blueprint@.len()
            &&& v@[i].pos == places@[i]
            &&& v@[i].vel == blueprint@[i].vel
            &&& v@[i].charge == blueprint@[i].charge
            &&& v@[i].angle == blueprint@[i].angle
            &&& v@[i].temperature == blueprint@[i].temperature
            &&& v@[i].mat_type == blueprint@[i].mat_type
            &&& v@[i].inv_mass == blueprint@[i].inv_mass
            &&& v@[i].grav_scale == blueprint@[i].grav_scale
            &&& blueprint@[i].links@[k] >= 0 ==> v@[i].links@[k] == blueprint@[i].links@[k] + active
            &&& blueprint@[i].links@[k] < 0 ==> v@[i].links@[k] == blueprint@[i].links@[k]
        },
{
    match r {
        Some(v) => {
            let _ = v@[i];
            let _ = blueprint@[i].links@[k];
        },
        None => {},
    }
}

/// What is copied out of a rectangle and pasted is there again, but for the position: particle `i`
/// stands at `at[i]` among the pasted ones, with the velocity, charge, angle, temperature, material,
/// inverse mass and gravity factor that it had, and what it was linked to inside the rectangle it is
/// linked to among them.
pub proof fn law_pasted_copy_is_what_was_copied(
    particles: Vec<Particle>,
    area: Area,
    copy: Vec<Particle>,
    places: Vec<[Single; 2]>,
    active: u32,
    capacity: u32,
    pasted: Vec<Particle>,
) -> (at: Seq<int>)
    requires
        particles@.len() <= i32::MAX,
        capacity <= i32::MAX,
        call_ensures(copy_box, (&particles, area), Some(copy)),
        places@.len() == copy@.len(),
        call_ensures(paste, (&copy, &places, active, capacity), Some(pasted)),
    ensures
        at.len() == particles@.len(),
        pasted@.len() == copy@.len(),
        forall|i: int|
            0 <= i < at.len() && area.holds(particles@[i].pos@) ==> {
                &&& 0 <= #[trigger] at[i] < pasted@.len()
                &&& pasted@[at[i]].pos == places@[at[i]]
                &&& pasted@[at[i]].vel == particles@[i].vel
                &&& pasted@[at[i]].charge == particles@[i].charge
                &&& pasted@[at[i]].angle == particles@[i].angle
                &&& pasted@[at[i]].temperature == particles@[i].temperature
                &&& pasted@[at[i]].mat_type == particles@[i].mat_type
                &&& pasted@[at[i]].inv_mass == particles@[i].inv_mass
                &&& pasted@[at[i]].grav_scale == particles@[i].grav_scale
            },
        forall|i: int, k: int|
            #![trigger at[i], particles@[i].links@[k]]
            0 <= i < at.len() && 0 <= k < 6 && area.holds(particles@[i].pos@) ==> {
                let l = particles@[i].links@[k];
                &&& 0 <= l < at.len() && area.holds(particles@[l as int].pos@)
                    ==> pasted@[at[i]].links@[k] == active + at[l as int]
                &&& l < 0 ==> pasted@[at[i]].links@[k] == l
                &&& l >= 0 && !(l < at.len() && area.holds(particles@[l as int].pos@))
                    ==> pasted@[at[i]].links@[k] == -1
            },
{
    let keep = boxed(particles@, area);
    let at = law_copy_takes_what_lies_inside(particles, area, copy, 0);
    if fits(copy@, active, capacity) {
        assert forall|q: int, s: int|
            0 <= q < copy@.len() && 0 <= s < 6 implies #[trigger] copy@[q].links@[s] + active
            <= i32::MAX by {
            law_gathered_links_stay_inside(particles@, keep, true, copy@, q, s);
        }
    }
    assert forall|i: int| 0 <= i < at.len() && area.holds(particles@[i].pos@) implies {
        &&& 0 <= #[trigger] at[i] < pasted@.len()
        &&& pasted@[at[i]].same_but_links(Particle { pos: places@[at[i]], ..particles@[i] })
    } by {
        let _ = pasted@[at[i]];
    }
    assert forall|i: int, k: int|
        #![trigger at[i], particles@[i].links@[k]]
        0 <= i < at.len() && 0 <= k < 6 && area.holds(particles@[i].pos@) implies {
        let l = particles@[i].links@[k];
        &&& 0 <= l < at.len() && area.holds(particles@[l as int].pos@)
            ==> pasted@[at[i]].links@[k] == active + at[l as int]
        &&& l < 0 ==> pasted@[at[i]].links@[k] == l
        &&& l >= 0 && !(l < at.len() && area.holds(particles@[l as int].pos@))
            ==> pasted@[at[i]].links@[k] == -1
    } by {
        let _ = pasted@[at[i]];
        let l = particles@[i].links@[k];
        assert(copy@[at[i]].links@[k] + active <= i32::MAX);
        if 0 <= l < at.len() {
            let _ = at[l as int];
        }
    }
    at
}

/// A blueprint is moved up exactly if none of its links outgrows the numbers there are.
pub proof fn law_shiftable_links_stay_in_range(
    blueprint: Vec<Particle>,
    start: u32,
    r: bool,
    i: int,
    k: int,
)
    requires
        call_ensures(is_shiftable, (&blueprint, start), r),
        0 <= i < blueprint@.len(),
        0 <= k < 6,
    ensures
        r ==> blueprint@[i].links@[k] + start <= i32::MAX,
        !r ==> exists|j: int, l: int|
            0 <= j < blueprint@.len() && 0 <= l < 6 && #[trigger] blueprint@[j].links@[l] + start
                > i32::MAX,
{
}

} // verus!
