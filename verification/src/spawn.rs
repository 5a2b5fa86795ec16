//! Adding particles: which sites of a lattice become particles, what a new particle is like and
//! how new particles are linked from the start.
use vstd::prelude::*;
use crate::area::{law_corners_can_be_swapped, spanned, Area};
use crate::particle::{no_links, Particle, NO_LINK};
use crate::single::{num, Single, ONE};

verus! {

/// 20.0: the temperature at which a source emits.
pub const ROOM_TEMPERATURE: u32 = 0x41a0_0000;

/// 10000.0: where the slots that hold no particle yet are put, on both axes.
pub const NOWHERE: u32 = 0x461c_4000;

/// How a new particle takes part in the motion.
#[derive(Clone, Copy, Debug, PartialEq, Eq, Structural)]
pub enum SpawnNodeMode {
    /// It moves and gravity pulls it.
    Normal,
    /// It moves and gravity leaves it alone.
    ZeroGravity,
    /// It floats until its damping budget is used up.
    SemiFixed,
    /// Nothing moves it.
    Fixed,
}

/// The inverse mass of a new particle, where `per_mass` is that of its material.
pub open spec fn spawned_inv_mass(mode: SpawnNodeMode, per_mass: Single) -> Single {
    if mode == SpawnNodeMode::Fixed {
        num(0)
    } else {
        per_mass
    }
}

/// The gravity factor of a new particle: a floating one keeps its budget there, as a negative
/// number.
pub open spec fn spawned_grav_scale(mode: SpawnNodeMode, damping: Single) -> Single {
    match mode {
        SpawnNodeMode::SemiFixed => damping.opposite(),
        SpawnNodeMode::ZeroGravity => num(0),
        _ => num(ONE),
    }
}

/// A particle at rest, without charge, heat or links.
pub open spec fn at_rest(p: Particle, pos: [Single; 2], mat: u32, inv_mass: Single, grav_scale: Single) -> bool {
    &&& p.pos == pos
    &&& p.vel@ == seq![num(0), num(0)]
    &&& p.links@ == seq![NO_LINK, NO_LINK, NO_LINK, NO_LINK, NO_LINK, NO_LINK]
    &&& p.charge == num(0)
    &&& p.angle == num(0)
    &&& p.temperature == num(0)
    &&& p.mat_type == mat
    &&& p.inv_mass == inv_mass
    &&& p.grav_scale == grav_scale
}

/// The inverse mass of a new particle.
pub fn node_inv_mass(mode: SpawnNodeMode, per_mass: Single) -> (r: Single)
    ensures
        r == spawned_inv_mass(mode, per_mass),
{
    if mode == SpawnNodeMode::Fixed {
        Single::from_bits(0)
    } else {
        per_mass
    }
}

/// The gravity factor of a new particle.
pub fn node_grav_scale(mode: SpawnNodeMode, damping: Single) -> (r: Single)
    ensures
        r == spawned_grav_scale(mode, damping),
{
    match mode {
        SpawnNodeMode::SemiFixed => damping.neg(),
        SpawnNodeMode::ZeroGravity => Single::from_bits(0),
        _ => Single::from_bits(ONE),
    }
}

/// A particle at rest, without charge, heat or links.
pub fn seed(pos: [Single; 2], mat: u32, inv_mass: Single, grav_scale: Single) -> (p: Particle)
    ensures
        at_rest(p, pos, mat, inv_mass, grav_scale),
{
    let zero = Single::from_bits(0);
    let p = Particle {
        pos,
        vel: [zero, zero],
        links: no_links(),
        charge: zero,
        angle: zero,
        temperature: zero,
        mat_type: mat,
        inv_mass,
        grav_scale,
    };
    assert(p.vel@ =~= seq![zero, zero]);
    assert(p.links@ =~= seq![NO_LINK, NO_LINK, NO_LINK, NO_LINK, NO_LINK, NO_LINK]);
    p
}

/// What stands in a slot that holds no particle yet.
pub fn blank() -> (p: Particle)
    ensures
        p.pos@ == seq![num(NOWHERE), num(NOWHERE)],
        at_rest(p, p.pos, 0, num(ONE), num(ONE)),
{
    let away = Single::from_bits(NOWHERE);
    let pos: [Single; 2] = [away, away];
    assert(pos@ =~= seq![away, away]);
    seed(pos, 0, Single::from_bits(ONE), Single::from_bits(ONE))
}

/// Whether every second row of a lattice, counted from row 0 either way, is pushed aside.
pub fn is_staggered(row: i32) -> (r: bool)
    ensures
        r == (row % 2 != 0),
{
    if row >= 0 {
        row % 2 != 0
    } else {
        (-(row + 1)) % 2 == 0
    }
}

/// A place of the lattice. `measure` is what its shape measures there.
#[derive(Clone, Copy, Debug, PartialEq, Eq)]
pub struct Site {
    pub pos: [Single; 2],
    pub measure: Single,
}

/// The region that a spawning tool fills.
#[derive(Clone, Copy, Debug, PartialEq, Eq)]
pub enum Region {
    /// A disc: the measure of a site is its distance from the centre.
    Disc { radius: Single },
    /// A rectangle; its sites have no measure.
    Rect { area: Area },
    /// A band along a line: the measure of a site is how far along the line it lies.
    Band { behind: Single, ahead: Single },
}

/// The site lies in the region; the edge belongs to it.
pub open spec fn covers(region: Region, site: Site) -> bool {
    match region {
        Region::Disc { radius } => site.measure.at_most(radius),
        Region::Rect { area } => area.holds(site.pos@),
        Region::Band { behind, ahead } => !ahead.less(site.measure) && !site.measure.less(behind),
    }
}

/// The positions of those of the first `n` sites that lie in the region.
pub open spec fn covered(region: Region, sites: Seq<Site>, n: int) -> Seq<[Single; 2]>
    decreases n,
{
    if n <= 0 {
        seq![]
    } else if covers(region, sites[n - 1]) {
        covered(region, sites, n - 1).push(sites[n - 1].pos)
    } else {
        covered(region, sites, n - 1)
    }
}

/// The first `room` of a list of positions.
pub open spec fn first_of(places: Seq<[Single; 2]>, room: int) -> Seq<[Single; 2]> {
    if places.len() <= room {
        places
    } else {
        places.subrange(0, room)
    }
}

/// How many particles there is room for.
pub open spec fn room_for(active: u32, capacity: u32) -> int {
    if active < capacity {
        capacity - active
    } else {
        0
    }
}

/// Whether a site lies in a region.
pub fn is_covered(region: &Region, site: &Site) -> (r: bool)
    ensures
        r == covers(*region, *site),
{
    match region {
        Region::Disc { radius } => site.measure.le(*radius),
        Region::Rect { area } => area.contains(site.pos),
        Region::Band { behind, ahead } => !(site.measure.gt(*ahead) || site.measure.lt(*behind)),
    }
}

/// How many particles there is room for.
pub fn room(active: u32, capacity: u32) -> (r: u32)
    ensures
        r == room_for(active, capacity),
{
    if active < capacity {
        capacity - active
    } else {
        0
    }
}

/// Particles that a tool is about to add after the active ones.
pub struct SpawnBatch {
    pub start: u32,
    pub capacity: u32,
    pub places: Vec<[Single; 2]>,
}

impl SpawnBatch {
    /// The batch fits.
    pub open spec fn wf(self) -> bool {
        self.places@.len() <= room_for(self.start, self.capacity)
    }

    /// A batch without particles.
    pub fn new(start: u32, capacity: u32) -> (r: Self)
        ensures
            r.wf(),
            r.start == start,
            r.capacity == capacity,
            r.places@ == Seq::<[Single; 2]>::empty(),
    {
        SpawnBatch { start, capacity, places: Vec::new() }
    }

    /// Takes the sites of a row that lie in the region, in their order, for as long as there is
    /// room.
    pub fn add_row(&mut self, region: &Region, row: &Vec<Site>)
        requires
            old(self).wf(),
        ensures
            final(self).wf(),
            final(self).start == old(self).start,
            final(self).capacity == old(self).capacity,
            final(self).places@ == first_of(
                old(self).places@ + covered(*region, row@, row@.len() as int),
                room_for(old(self).start, old(self).capacity),
            ),
    {
        let limit: u32 = room(self.start, self.capacity);
        let ghost before = self.places@;
        let mut i: usize = 0;
        assert(before + covered(*region, row@, 0) =~= before);
        while i < row.len()
            invariant
                i <= row@.len(),
                limit == room_for(self.start, self.capacity),
                self.start == old(self).start,
                self.capacity == old(self).capacity,
                before == old(self).places@,
                before.len() <= limit,
                self.places@ == first_of(before + covered(*region, row@, i as int), limit as int),
            decreases row@.len() - i,
        {
            let ghost all = before + covered(*region, row@, i as int);
            let ghost more = before + covered(*region, row@, i + 1);
            if is_covered(region, &row[i]) {
                assert(more =~= all.push(row@[i as int].pos));
                if self.places.len() >= limit as usize {
                    proof {
                        lemma_covered_grows(*region, row@, i as int, row@.len() as int);
                        assert(all.len() >= limit);
                        assert forall|k: int| 0 <= k < limit implies all[k] == (before + covered(
                            *region,
                            row@,
                            row@.len() as int,
                        ))[k] by {
                            if k >= before.len() {
                                let _ = covered(*region, row@, i as int)[k - before.len()];
                            }
                        }
                        assert(first_of(all, limit as int) =~= first_of(
                            before + covered(*region, row@, row@.len() as int),
                            limit as int,
                        ));
                    }
                    return;
                }
                self.places.push(row[i].pos);
                assert(self.places@ =~= first_of(more, limit as int));
            }
            i += 1;
        }
    }

    /// The particles of the batch, without links.
    pub fn particles(&self, mat: u32, inv_mass: Single, grav_scale: Single) -> (r: Vec<Particle>)
        ensures
            r@.len() == self.places@.len(),
            forall|i: int|
                0 <= i < r@.len() ==> at_rest(
                    #[trigger] r@[i],
                    self.places@[i],
                    mat,
                    inv_mass,
                    grav_scale,
                ),
    {
        let mut r: Vec<Particle> = Vec::new();
        let mut i: usize = 0;
        while i < self.places.len()
            invariant
                i <= self.places@.len(),
                r@.len() == i,
                forall|j: int|
                    0 <= j < i ==> at_rest(
                        #[trigger] r@[j],
                        self.places@[j],
                        mat,
                        inv_mass,
                        grav_scale,
                    ),
            decreases self.places@.len() - i,
        {
            r.push(seed(self.places[i], mat, inv_mass, grav_scale));
            i += 1;
        }
        r
    }
}

proof fn lemma_covered_grows(region: Region, sites: Seq<Site>, m: int, n: int)
    requires
        0 <= m <= n,
    ensures
        covered(region, sites, m).len() <= covered(region, sites, n).len(),
        forall|k: int|
            0 <= k < covered(region, sites, m).len() ==> #[trigger] covered(region, sites, m)[k]
                == covered(region, sites, n)[k],
    decreases n - m,
{
    if m < n {
        lemma_covered_grows(region, sites, m, n - 1);
    }
}

/// Of the first `n` new particles, those closer than `limit` to particle `i`; `gaps` holds the
/// distances from it.
pub open spec fn close_by(i: int, gaps: Seq<Single>, limit: Single, n: int) -> Seq<int>
    decreases n,
{
    if n <= 0 {
        seq![]
    } else if n - 1 != i && gaps[n - 1].less(limit) {
        close_by(i, gaps, limit, n - 1).push(n - 1)
    } else {
        close_by(i, gaps, limit, n - 1)
    }
}

/// The links of new particle `i`: the first six particles close by, numbered from `start`.
pub open spec fn prelinked(i: int, gaps: Seq<Single>, limit: Single, start: int, links: Seq<i32>) -> bool {
    let near = close_by(i, gaps, limit, gaps.len() as int);
    &&& links.len() == 6
    &&& forall|k: int|
        0 <= k < 6 ==> #[trigger] links[k] == if k < near.len() {
            near[k] + start
        } else {
            NO_LINK as int
        }
}

/// Links a new particle to the first six new particles close by.
pub fn link_neighbors(i: usize, gaps: &Vec<Single>, limit: Single, start: u32) -> (r: [i32; 6])
    requires
        start + gaps@.len() <= i32::MAX,
    ensures
        prelinked(i as int, gaps@, limit, start as int, r@),
{
    let mut links: [i32; 6] = no_links();
    let mut count: usize = 0;
    let mut j: usize = 0;
    while j < gaps.len()
        invariant
            j <= gaps@.len(),
            start + gaps@.len() <= i32::MAX,
            count <= 6,
            count < 6 ==> count == close_by(i as int, gaps@, limit, j as int).len(),
            count == 6 ==> close_by(i as int, gaps@, limit, j as int).len() >= 6,
            forall|k: int|
                0 <= k < count ==> #[trigger] links@[k] == close_by(
                    i as int,
                    gaps@,
                    limit,
                    j as int,
                )[k] + start,
            forall|k: int| count <= k < 6 ==> #[trigger] links@[k] == NO_LINK,
        decreases gaps@.len() - j,
    {
        if j != i && gaps[j].lt(limit) {
            if count < 6 {
                links[count] = (start + j as u32) as i32;
                count += 1;
            }
        }
        j += 1;
    }
    links
}

/// The particles that a source emits at the given points, for as long as there is room.
pub fn emit(
    points: &Vec<[Single; 2]>,
    vel: [Single; 2],
    mat: u32,
    inv_mass: Single,
    grav_scale: Single,
    active: u32,
    capacity: u32,
) -> (r: Vec<Particle>)
    ensures
        r@.len() == first_of(points@, room_for(active, capacity)).len(),
        forall|i: int|
            0 <= i < r@.len() ==> {
                &&& (#[trigger] r@[i]).vel == vel
                &&& r@[i].temperature == num(ROOM_TEMPERATURE)
                &&& exists|rest: Particle|
                    at_rest(rest, points@[i], mat, inv_mass, grav_scale) && r@[i] == (Particle {
                        vel,
                        temperature: num(ROOM_TEMPERATURE),
                        ..rest
                    })
            },
{
    let mut left: u32 = room(active, capacity);
    let mut r: Vec<Particle> = Vec::new();
    let mut i: usize = 0;
    while i < points.len() && left > 0
        invariant
            i <= points@.len(),
            r@.len() == i,
            i + left == room_for(active, capacity),
            forall|j: int|
                0 <= j < i ==> {
                    &&& (#[trigger] r@[j]).vel == vel
                    &&& r@[j].temperature == num(ROOM_TEMPERATURE)
                    &&& exists|rest: Particle|
                        at_rest(rest, points@[j], mat, inv_mass, grav_scale) && r@[j]
                            == (Particle {
                            vel,
                            temperature: num(ROOM_TEMPERATURE),
                            ..rest
                        })
                },
        decreases points@.len() - i,
    {
        let rest: Particle = seed(points[i], mat, inv_mass, grav_scale);
        let p: Particle = Particle {
            vel,
            temperature: Single::from_bits(ROOM_TEMPERATURE),
            ..rest
        };
        r.push(p);
        left -= 1;
        i += 1;
    }
    r
}

/// Adding two rows one after the other is adding the sites of both: what a tool spawns is the
/// first sites in its region, up to the capacity, whatever rows they come in.
pub proof fn law_rows_add_up(region: Region, before: Seq<[Single; 2]>, a: Seq<Site>, b: Seq<Site>, room: int)
    requires
        0 <= room,
    ensures
        first_of(
            first_of(before + covered(region, a, a.len() as int), room) + covered(
                region,
                b,
                b.len() as int,
            ),
            room,
        ) == first_of(before + covered(region, a + b, (a + b).len() as int), room),
{
    lemma_covered_splits(region, a, b, b.len() as int);
    let ca = covered(region, a, a.len() as int);
    let cb = covered(region, b, b.len() as int);
    assert(before + (ca + cb) =~= (before + ca) + cb);
    assert(first_of(first_of(before + ca, room) + cb, room) =~= first_of((before + ca) + cb, room));
}

/// The positions taken from a list of sites are exactly those of the sites in the region.
proof fn lemma_covered_means(region: Region, sites: Seq<Site>, n: int, pos: [Single; 2])
    requires
        0 <= n <= sites.len(),
    ensures
        covered(region, sites, n).contains(pos) <==> exists|j: int|
            0 <= j < n && covers(region, #[trigger] sites[j]) && sites[j].pos == pos,
    decreases n,
{
    if n > 0 {
        lemma_covered_means(region, sites, n - 1, pos);
        let before = covered(region, sites, n - 1);
        let all = covered(region, sites, n);
        if covers(region, sites[n - 1]) {
            assert(all[before.len() as int] == sites[n - 1].pos);
            if all.contains(pos) {
                let k = choose|k: int| 0 <= k < all.len() && all[k] == pos;
                if k < before.len() {
                    assert(before[k] == pos);
                }
            }
            if before.contains(pos) {
                let k = choose|k: int| 0 <= k < before.len() && before[k] == pos;
                assert(all[k] == pos);
            }
        }
    }
}

/// Two regions filled from one list of sites agree where they overlap: a position that is taken
/// for one and whose site lies in the other is taken for the other as well.
pub proof fn law_regions_share_their_sites(a: Region, b: Region, sites: Seq<Site>, j: int)
    requires
        0 <= j < sites.len(),
        covers(a, sites[j]),
        covers(b, sites[j]),
    ensures
        covered(a, sites, sites.len() as int).contains(sites[j].pos),
        covered(b, sites, sites.len() as int).contains(sites[j].pos),
{
    lemma_covered_means(a, sites, sites.len() as int, sites[j].pos);
    lemma_covered_means(b, sites, sites.len() as int, sites[j].pos);
}

/// Two rectangles filled from one list of sites hold the same positions where they overlap: one
/// taken for the first that lies in the second is taken for the second, bit for bit. Where the
/// sites have different positions, none is taken twice.
pub proof fn law_rectangles_share_their_positions(a: Area, b: Area, sites: Seq<Site>, pos: [Single; 2])
    requires
        covered(Region::Rect { area: a }, sites, sites.len() as int).contains(pos),
        b.holds(pos@),
    ensures
        covered(Region::Rect { area: b }, sites, sites.len() as int).contains(pos),
        (forall|j: int, k: int|
            0 <= j < k < sites.len() ==> (#[trigger] sites[j]).pos != (#[trigger] sites[k]).pos)
            ==> covered(Region::Rect { area: b }, sites, sites.len() as int).no_duplicates(),
{
    lemma_covered_means(Region::Rect { area: a }, sites, sites.len() as int, pos);
    lemma_covered_means(Region::Rect { area: b }, sites, sites.len() as int, pos);
    if forall|j: int, k: int|
        0 <= j < k < sites.len() ==> (#[trigger] sites[j]).pos != (#[trigger] sites[k]).pos {
        lemma_covered_distinct(Region::Rect { area: b }, sites, sites.len() as int);
    }
}

/// A row of a lattice: its sites from number `from` up to number `to`.
pub open spec fn lattice_row(lattice: spec_fn(int) -> Site, from: int, to: int) -> Seq<Site> {
    Seq::new((to - from) as nat, |k: int| lattice(from + k))
}

/// Two rectangles filled from rows of one lattice hold the same positions where they overlap, even
/// where the rows reach from and to different sites: a position taken for the first that lies in
/// the second is taken for the second, if its row leaves out no site that lies in it. The positions
/// taken for the second are then exactly those of the lattice that lie in it.
pub proof fn law_rectangles_share_a_lattice(
    lattice: spec_fn(int) -> Site,
    a: Area,
    from_a: int,
    to_a: int,
    b: Area,
    from_b: int,
    to_b: int,
    pos: [Single; 2],
)
    requires
        from_a <= to_a,
        from_b <= to_b,
        forall|k: int| b.holds((#[trigger] lattice(k)).pos@) ==> from_b <= k < to_b,
    ensures
        covered(Region::Rect { area: a }, lattice_row(lattice, from_a, to_a), to_a - from_a).contains(
            pos,
        ) && b.holds(pos@) ==> covered(
            Region::Rect { area: b },
            lattice_row(lattice, from_b, to_b),
            to_b - from_b,
        ).contains(pos),
        covered(Region::Rect { area: b }, lattice_row(lattice, from_b, to_b), to_b - from_b).contains(
            pos,
        ) <==> exists|k: int| (#[trigger] lattice(k)).pos == pos && b.holds(pos@),
{
    let row_a = lattice_row(lattice, from_a, to_a);
    let row_b = lattice_row(lattice, from_b, to_b);
    let (ra, rb) = (Region::Rect { area: a }, Region::Rect { area: b });
    lemma_covered_means(ra, row_a, to_a - from_a, pos);
    lemma_covered_means(rb, row_b, to_b - from_b, pos);
    if covered(ra, row_a, to_a - from_a).contains(pos) && b.holds(pos@) {
        let j = choose|j: int|
            0 <= j < to_a - from_a && covers(ra, #[trigger] row_a[j]) && row_a[j].pos == pos;
        assert(row_a[j] == lattice(from_a + j));
        assert(row_b[from_a + j - from_b] == lattice(from_a + j));
    }
    if covered(rb, row_b, to_b - from_b).contains(pos) {
        let j = choose|j: int|
            0 <= j < to_b - from_b && covers(rb, #[trigger] row_b[j]) && row_b[j].pos == pos;
        assert(row_b[j] == lattice(from_b + j));
    }
    if exists|k: int| (#[trigger] lattice(k)).pos == pos && b.holds(pos@) {
        let k = choose|k: int| (#[trigger] lattice(k)).pos == pos && b.holds(pos@);
        assert(row_b[k - from_b] == lattice(k));
    }
}

/// A rectangle is filled in the same way from whichever of its four corners it is drawn: the same
/// positions in the same order, hence the same particles in the same slots.
pub proof fn law_batches_do_not_depend_on_the_corners(
    a: Seq<Single>,
    b: Seq<Single>,
    sites: Seq<Site>,
    n: int,
)
    requires
        0 <= n <= sites.len(),
    ensures
        covered(Region::Rect { area: spanned(a, b) }, sites, n) == covered(
            Region::Rect { area: spanned(b, a) },
            sites,
            n,
        ),
        covered(Region::Rect { area: spanned(a, b) }, sites, n) == covered(
            Region::Rect { area: spanned(seq![a[0], b[1]], seq![b[0], a[1]]) },
            sites,
            n,
        ),
        covered(Region::Rect { area: spanned(a, b) }, sites, n) == covered(
            Region::Rect { area: spanned(seq![b[0], a[1]], seq![a[0], b[1]]) },
            sites,
            n,
        ),
    decreases n,
{
    if n > 0 {
        law_batches_do_not_depend_on_the_corners(a, b, sites, n - 1);
        law_corners_can_be_swapped(a, b, sites[n - 1].pos@);
    }
}

proof fn lemma_covered_distinct(region: Region, sites: Seq<Site>, n: int)
    requires
        0 <= n <= sites.len(),
        forall|j: int, k: int|
            0 <= j < k < sites.len() ==> (#[trigger] sites[j]).pos != (#[trigger] sites[k]).pos,
    ensures
        covered(region, sites, n).no_duplicates(),
    decreases n,
{
    if n > 0 {
        lemma_covered_distinct(region, sites, n - 1);
        let before = covered(region, sites, n - 1);
        lemma_covered_means(region, sites, n - 1, sites[n - 1].pos);
        assert forall|k: int| 0 <= k < before.len() implies before[k] != sites[n - 1].pos by {
            assert(before.contains(before[k]));
        }
    }
}

proof fn lemma_covered_splits(region: Region, a: Seq<Site>, b: Seq<Site>, n: int)
    requires
        0 <= n <= b.len(),
    ensures
        covered(region, a + b, a.len() + n) == covered(region, a, a.len() as int) + covered(
            region,
            b,
            n,
        ),
    decreases n,
{
    if n > 0 {
        lemma_covered_splits(region, a, b, n - 1);
        assert((a + b)[a.len() + n - 1] == b[n - 1]);
        assert(covered(region, a + b, a.len() + n) =~= covered(region, a, a.len() as int)
            + covered(region, b, n));
    } else {
        lemma_covered_prefix(region, a, b, a.len() as int);
        assert(covered(region, a, a.len() as int) + covered(region, b, 0) =~= covered(
            region,
            a,
            a.len() as int,
        ));
    }
}

proof fn lemma_covered_prefix(region: Region, a: Seq<Site>, b: Seq<Site>, n: int)
    requires
        0 <= n <= a.len(),
    ensures
        covered(region, a + b, n) == covered(region, a, n),
    decreases n,
{
    if n > 0 {
        lemma_covered_prefix(region, a, b, n - 1);
    }
}

proof fn lemma_close_by(i: int, gaps: Seq<Single>, limit: Single, n: int)
    requires
        0 <= n <= gaps.len(),
    ensures
        forall|k: int|
            0 <= k < close_by(i, gaps, limit, n).len() ==> {
                let j = #[trigger] close_by(i, gaps, limit, n)[k];
                0 <= j < n && j != i && gaps[j].less(limit)
            },
        forall|k: int, l: int|
            0 <= k < l < close_by(i, gaps, limit, n).len() ==> #[trigger] close_by(
                i,
                gaps,
                limit,
                n,
            )[k] < #[trigger] close_by(i, gaps, limit, n)[l],
        forall|j: int|
            0 <= j < n && j != i && (#[trigger] gaps[j]).less(limit) ==> close_by(
                i,
                gaps,
                limit,
                n,
            ).contains(j),
    decreases n,
{
    if n > 0 {
        lemma_close_by(i, gaps, limit, n - 1);
        let shorter = close_by(i, gaps, limit, n - 1);
        let longer = close_by(i, gaps, limit, n);
        assert forall|j: int|
            0 <= j < n && j != i && (#[trigger] gaps[j]).less(limit) implies longer.contains(j) by {
            if j < n - 1 {
                let k = choose|k: int| 0 <= k < shorter.len() && shorter[k] == j;
                assert(longer[k] == j);
            } else {
                assert(longer[longer.len() - 1] == j);
            }
        }
    }
}

/// The links a new particle starts with name other new particles, each at most once.
pub proof fn law_prelinks_name_others_once(
    i: int,
    gaps: Seq<Single>,
    limit: Single,
    start: int,
    links: Seq<i32>,
    k: int,
    l: int,
)
    requires
        prelinked(i, gaps, limit, start, links),
        0 <= start,
        0 <= k < l < 6,
        links[l] != NO_LINK,
    ensures
        start <= links[k] < links[l] < start + gaps.len(),
        links[k] != start + i,
        links[l] != start + i,
{
    lemma_close_by(i, gaps, limit, gaps.len() as int);
    let near = close_by(i, gaps, limit, gaps.len() as int);
    assert(l < near.len());
    assert(near[k] < near[l]);
}

/// New particles are linked both ways: if the distances are the same seen from both ends and
/// neither particle has more than six others close by, one links to the other exactly if the
/// other links back.
pub proof fn law_prelinks_are_mutual(
    i: int,
    j: int,
    gaps_i: Seq<Single>,
    gaps_j: Seq<Single>,
    limit: Single,
    start: int,
    links_i: Seq<i32>,
    links_j: Seq<i32>,
)
    requires
        prelinked(i, gaps_i, limit, start, links_i),
        prelinked(j, gaps_j, limit, start, links_j),
        0 <= start,
        start + gaps_i.len() <= i32::MAX,
        gaps_i.len() == gaps_j.len(),
        0 <= i < gaps_i.len(),
        0 <= j < gaps_i.len(),
        gaps_i[j] == gaps_j[i],
        close_by(i, gaps_i, limit, gaps_i.len() as int).len() <= 6,
        close_by(j, gaps_j, limit, gaps_j.len() as int).len() <= 6,
    ensures
        links_i.contains((start + j) as i32) <==> links_j.contains((start + i) as i32),
{
    lemma_link_means_close(i, j, gaps_i, limit, start, links_i);
    lemma_link_means_close(j, i, gaps_j, limit, start, links_j);
}

proof fn lemma_link_means_close(
    i: int,
    j: int,
    gaps: Seq<Single>,
    limit: Single,
    start: int,
    links: Seq<i32>,
)
    requires
        prelinked(i, gaps, limit, start, links),
        0 <= start,
        start + gaps.len() <= i32::MAX,
        0 <= j < gaps.len(),
        close_by(i, gaps, limit, gaps.len() as int).len() <= 6,
    ensures
        links.contains((start + j) as i32) <==> i != j && gaps[j].less(limit),
{
    let near = close_by(i, gaps, limit, gaps.len() as int);
    lemma_close_by(i, gaps, limit, gaps.len() as int);
    if links.contains((start + j) as i32) {
        let k = choose|k: int| 0 <= k < links.len() && links[k] == start + j;
        assert(near[k] == j);
    }
    if i != j && gaps[j].less(limit) {
        let k = choose|k: int| 0 <= k < near.len() && near[k] == j;
        assert(links[k] == start + j);
    }
}

/// A batch never outgrows the capacity.
pub proof fn law_batch_fits(batch: SpawnBatch)
    requires
        batch.wf(),
    ensures
        batch.start <= batch.capacity ==> batch.start + batch.places@.len() <= batch.capacity,
        batch.start > batch.capacity ==> batch.places@.len() == 0,
{
}

/// A new particle has exactly what was asked for, whatever its sign: the place, the material, the
/// inverse mass and the gravity factor. It rests, without charge, turn, heat or links.
pub proof fn law_seed_has_what_was_asked(
    pos: [Single; 2],
    mat: u32,
    inv_mass: Single,
    grav_scale: Single,
    p: Particle,
    k: int,
)
    requires
        call_ensures(seed, (pos, mat, inv_mass, grav_scale), p),
        0 <= k < 6,
    ensures
        p.pos == pos,
        p.mat_type == mat,
        p.inv_mass == inv_mass,
        p.grav_scale == grav_scale,
        p.vel@[0].bits == 0,
        p.vel@[1].bits == 0,
        p.charge.bits == 0,
        p.angle.bits == 0,
        p.temperature.bits == 0,
        p.links@[k] == -1,
{
}

/// Every particle of a batch lies at its place and has exactly what was asked for, whatever its
/// sign.
pub proof fn law_batch_has_what_was_asked(
    batch: SpawnBatch,
    mat: u32,
    inv_mass: Single,
    grav_scale: Single,
    r: Vec<Particle>,
    i: int,
    k: int,
)
    requires
        call_ensures(SpawnBatch::particles, (&batch, mat, inv_mass, grav_scale), r),
        0 <= k < 6,
    ensures
        r@.len() == batch.places@.len(),
        0 <= i < batch.places@.len() ==> {
            &&& r@[i].pos == batch.places@[i]
            &&& r@[i].mat_type == mat
            &&& r@[i].inv_mass == inv_mass
            &&& r@[i].grav_scale == grav_scale
            &&& r@[i].vel@[0].bits == 0
            &&& r@[i].vel@[1].bits == 0
            &&& r@[i].charge.bits == 0
            &&& r@[i].angle.bits == 0
            &&& r@[i].temperature.bits == 0
            &&& r@[i].links@[k] == -1
        },
{
    let _ = r@[i];
}

/// Every particle that a source emits lies at its point, moves as asked, is at room temperature and
/// has exactly the material, inverse mass and gravity factor that were asked for, whatever their
/// sign. As many come out as there are points and room.
pub proof fn law_emitted_has_what_was_asked(
    points: Vec<[Single; 2]>,
    vel: [Single; 2],
    mat: u32,
    inv_mass: Single,
    grav_scale: Single,
    active: u32,
    capacity: u32,
    r: Vec<Particle>,
    i: int,
    k: int,
)
    requires
        call_ensures(emit, (&points, vel, mat, inv_mass, grav_scale, active, capacity), r),
        0 <= k < 6,
    ensures
        active >= capacity ==> r@.len() == 0,
        active < capacity && points@.len() <= capacity - active ==> r@.len() == points@.len(),
        active < capacity && points@.len() >= capacity - active ==> r@.len() == capacity - active,
        0 <= i < r@.len() ==> {
            &&& r@[i].pos == points@[i]
            &&& r@[i].vel == vel
            &&& r@[i].mat_type == mat
            &&& r@[i].inv_mass == inv_mass
            &&& r@[i].grav_scale == grav_scale
            &&& r@[i].charge.bits == 0
            &&& r@[i].angle.bits == 0
            &&& r@[i].temperature.bits == 0x41a0_0000
            &&& r@[i].links@[k] == -1
        },
{
    let _ = r@[i];
}

/// A node mode says how a new particle moves: only a fixed one has no inverse mass; gravity is full
/// for a normal and a fixed one, zero for a weightless one, and the negative of the damping for a
/// half fixed one.
pub proof fn law_node_modes(mode: SpawnNodeMode, per_mass: Single, damping: Single, m: Single, g: Single)
    requires
        call_ensures(node_inv_mass, (mode, per_mass), m),
        call_ensures(node_grav_scale, (mode, damping), g),
    ensures
        mode is Fixed ==> m.bits == 0 && g.bits == 0x3f80_0000,
        mode is Normal ==> m == per_mass && g.bits == 0x3f80_0000,
        mode is ZeroGravity ==> m == per_mass && g.bits == 0,
        mode is SemiFixed ==> m == per_mass && g.bits % 0x8000_0000 == damping.bits % 0x8000_0000
            && g.bits != damping.bits,
{
}

/// A half fixed particle with a damping above 0.0001 floats on its budget from the start, whether
/// it comes from a tool or from a source; one with a smaller damping, or of another mode, does not.
pub proof fn law_half_fixed_particles_float(
    mode: SpawnNodeMode,
    damping: Single,
    g: Single,
    batch: SpawnBatch,
    points: Vec<[Single; 2]>,
    vel: [Single; 2],
    mat: u32,
    inv_mass: Single,
    active: u32,
    capacity: u32,
    spawned: Vec<Particle>,
    emitted: Vec<Particle>,
    i: int,
)
    requires
        call_ensures(node_grav_scale, (mode, damping), g),
        call_ensures(SpawnBatch::particles, (&batch, mat, inv_mass, g), spawned),
        call_ensures(emit, (&points, vel, mat, inv_mass, g, active, capacity), emitted),
    ensures
        mode is SemiFixed && num(0x38d1_b717).less(damping) ==> {
            &&& 0 <= i < spawned@.len() ==> spawned@[i].budgeted()
            &&& 0 <= i < emitted@.len() ==> emitted@[i].budgeted()
        },
        !(mode is SemiFixed && num(0x38d1_b717).less(damping)) ==> {
            &&& 0 <= i < spawned@.len() ==> !spawned@[i].budgeted()
            &&& 0 <= i < emitted@.len() ==> !emitted@[i].budgeted()
        },
{
    let _ = spawned@[i];
    let _ = emitted@[i];
}

/// A slot without a particle holds one far away, of the first material and of unit weight.
pub proof fn law_blank_is_far_away(p: Particle, k: int)
    requires
        call_ensures(blank, (), p),
        0 <= k < 6,
    ensures
        p.pos@[0].bits == 0x461c_4000,
        p.pos@[1].bits == 0x461c_4000,
        p.vel@[0].bits == 0,
        p.vel@[1].bits == 0,
        p.links@[k] == -1,
        p.charge.bits == 0,
        p.angle.bits == 0,
        p.temperature.bits == 0,
        p.mat_type == 0,
        p.inv_mass.bits == 0x3f80_0000,
        p.grav_scale.bits == 0x3f80_0000,
{
}

/// Of two rows that follow each other one is pushed aside, and row 0 is not.
pub proof fn law_rows_alternate(row: i32, next: i32, a: bool, b: bool)
    requires
        call_ensures(is_staggered, (row,), a),
        call_ensures(is_staggered, (next,), b),
    ensures
        next == row + 1 ==> a != b,
        row == 0 ==> !a,
{
}

/// Whether a site is covered, for each kind of region: a disc takes what lies no further out than
/// its radius, a rectangle what lies between its edges, a band what lies neither behind nor ahead
/// of it.
pub proof fn law_regions_cover_their_sites(region: Region, site: Site, r: bool)
    requires
        call_ensures(is_covered, (&region, &site), r),
    ensures
        region matches Region::Disc { radius } ==> r == site.measure.at_most(radius),
        region matches Region::Rect { area } ==> r == (area.min_x.at_most(site.pos@[0])
            && site.pos@[0].at_most(area.max_x) && area.min_y.at_most(site.pos@[1])
            && site.pos@[1].at_most(area.max_y)),
        region matches Region::Band { behind, ahead } ==> r == (!site.measure.less(behind)
            && !ahead.less(site.measure)),
{
}

/// The room is what the capacity leaves.
pub proof fn law_room_is_what_is_left(active: u32, capacity: u32, r: u32)
    requires
        call_ensures(room, (active, capacity), r),
    ensures
        active <= capacity ==> active + r == capacity,
        active > capacity ==> r == 0,
{
}

/// A site that the region covers is added behind the others if there is room, one that it does not
/// cover is not, and an empty row adds nothing.
pub proof fn law_adding_one_site(batch: &mut SpawnBatch, region: Region, row: Vec<Site>, inside: bool, done: ())
    requires
        old(batch).wf(),
        row@.len() <= 1,
        row@.len() == 1 ==> call_ensures(is_covered, (&region, &row@[0]), inside),
        call_ensures(SpawnBatch::add_row, (batch, &region, &row), done),
    ensures
        final(batch).start == old(batch).start,
        final(batch).capacity == old(batch).capacity,
        row@.len() == 1 && inside && old(batch).start + old(batch).places@.len() < old(
            batch,
        ).capacity ==> final(batch).places@ == old(batch).places@.push(row@[0].pos),
        row@.len() == 0 || !inside || old(batch).start + old(batch).places@.len() >= old(
            batch,
        ).capacity ==> final(batch).places@ == old(batch).places@,
{
    reveal_with_fuel(covered, 2);
    let all = old(batch).places@ + covered(region, row@, row@.len() as int);
    if row@.len() == 1 && inside {
        assert(all =~= old(batch).places@.push(row@[0].pos));
        if old(batch).start + old(batch).places@.len() >= old(batch).capacity {
            assert(first_of(all, room_for(old(batch).start, old(batch).capacity)) =~= old(
                batch,
            ).places@);
        }
    } else {
        assert(all =~= old(batch).places@);
    }
}

/// A row is added site by site: adding it is adding its first part and then the rest.
pub proof fn law_rows_are_added_in_parts(
    whole: &mut SpawnBatch,
    first: &mut SpawnBatch,
    rest: &mut SpawnBatch,
    region: Region,
    row: Vec<Site>,
    head: Vec<Site>,
    tail: Vec<Site>,
    done: (),
)
    requires
        old(whole).wf(),
        *old(first) == *old(whole),
        *old(rest) == *final(first),
        row@ == head@ + tail@,
        call_ensures(SpawnBatch::add_row, (whole, &region, &row), done),
        call_ensures(SpawnBatch::add_row, (first, &region, &head), done),
        call_ensures(SpawnBatch::add_row, (rest, &region, &tail), done),
    ensures
        final(whole).places@ == final(rest).places@,
        final(whole).start == final(rest).start,
        final(whole).capacity == final(rest).capacity,
{
    law_rows_add_up(
        region,
        old(whole).places@,
        head@,
        tail@,
        room_for(old(whole).start, old(whole).capacity),
    );
}

/// A new batch is empty and remembers where it starts and how much fits.
pub proof fn law_new_batch_is_empty(start: u32, capacity: u32, r: SpawnBatch)
    requires
        call_ensures(SpawnBatch::new, (start, capacity), r),
    ensures
        r.places@.len() == 0,
        r.start == start,
        r.capacity == capacity,
{
}

/// The links a new particle starts with are the first others close by, in their order: each slot
/// names another new particle closer than the limit, the slots rise, an empty one is followed by
/// empty ones only, and a particle close by is left out only if all six slots name earlier ones.
pub proof fn law_prelinks_are_the_first_close_by(
    i: usize,
    gaps: Vec<Single>,
    limit: Single,
    start: u32,
    r: [i32; 6],
    k: int,
    l: int,
    j: int,
)
    requires
        start + gaps@.len() <= i32::MAX,
        call_ensures(link_neighbors, (i, &gaps, limit, start), r),
        0 <= k < l < 6,
        0 <= j < gaps@.len(),
    ensures
        r@[l] != -1 ==> r@[k] != -1 && r@[k] < r@[l],
        r@[k] != -1 ==> {
            &&& start <= r@[k] < start + gaps@.len()
            &&& r@[k] != start + i
            &&& gaps@[r@[k] - start].less(limit)
        },
        r@[l] != -1 ==> {
            &&& start <= r@[l] < start + gaps@.len()
            &&& r@[l] != start + i
            &&& gaps@[r@[l] - start].less(limit)
        },
        j != i && gaps@[j].less(limit) ==> (exists|s: int|
            0 <= s < 6 && #[trigger] r@[s] == start + j) || (forall|s: int|
            0 <= s < 6 ==> 0 <= #[trigger] r@[s] < start + j),
{
    let near = close_by(i as int, gaps@, limit, gaps@.len() as int);
    lemma_close_by(i as int, gaps@, limit, gaps@.len() as int);
    let _ = r@[k];
    let _ = r@[l];
    if k < near.len() {
        let _ = near[k];
    }
    if l < near.len() {
        assert(near[k] < near[l]);
    }
    if j != i && gaps@[j].less(limit) {
        assert(near.contains(j));
        let s = choose|s: int| 0 <= s < near.len() && near[s] == j;
        if s < 6 {
            assert(r@[s] == start + j);
        } else {
            assert forall|t: int| 0 <= t < 6 implies 0 <= #[trigger] r@[t] < start + j by {
                assert(near[t] < near[s]);
            }
        }
    }
}

} // verus!
