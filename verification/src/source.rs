//! Sources in the scene: lights, emitters of particles and centres of attraction.
use vstd::prelude::*;
use crate::single::{num, Single, ONE};
use crate::spawn::SpawnNodeMode;

verus! {

/// 0.5
pub const HALF: u32 = 0x3f00_0000;

/// How many centres of attraction act at a time.
pub const MAX_GRAVITY_SOURCES: usize = 8;

/// What a source does.
#[derive(Clone, Copy, Debug, PartialEq, Eq)]
pub enum WorldSourceType {
    /// It shines.
    Light { color: [Single; 3], intensity: Single },
    /// It emits particles.
    Particle {
        mat: u32,
        node_mode: SpawnNodeMode,
        rate_per_sec: Single,
        delay_accum: Single,
        angle: Single,
        speed: Single,
    },
    /// It attracts, or repels where the force is negative.
    Gravity { force: Single },
}

/// A source.
#[derive(Clone, Copy, Debug, PartialEq, Eq)]
pub struct WorldSource {
    pub id: u32,
    pub pos: [Single; 2],
    pub radius: Single,
    pub source_type: WorldSourceType,
}

/// What the panel for new sources is set to.
#[derive(Clone, Copy, Debug, PartialEq, Eq)]
pub struct SourceSettings {
    /// 0 for a light, 1 for an emitter, anything else for a centre of attraction.
    pub kind: u32,
    pub radius: Single,
    pub mat: u32,
    pub node_mode: SpawnNodeMode,
    pub rate: Single,
    pub speed: Single,
    pub angle: Single,
    pub force: Single,
}

impl SourceSettings {
    /// `t` is what a source placed with these settings does.
    pub open spec fn makes(self, t: WorldSourceType) -> bool {
        if self.kind == 0 {
            &&& t matches WorldSourceType::Light { color, intensity }
            &&& color@ == seq![num(ONE), num(ONE), num(HALF)]
            &&& intensity == num(ONE)
        } else if self.kind == 1 {
            t == (WorldSourceType::Particle {
                mat: self.mat,
                node_mode: self.node_mode,
                rate_per_sec: self.rate,
                delay_accum: num(0),
                angle: self.angle,
                speed: self.speed,
            })
        } else {
            t == (WorldSourceType::Gravity { force: self.force })
        }
    }

    /// What a source placed with these settings does.
    pub fn source_type(&self) -> (r: WorldSourceType)
        ensures
            self.makes(r),
    {
        if self.kind == 0 {
            let one = Single::from_bits(ONE);
            let color: [Single; 3] = [one, one, Single::from_bits(HALF)];
            assert(color@ =~= seq![num(ONE), num(ONE), num(HALF)]);
            WorldSourceType::Light { color, intensity: one }
        } else if self.kind == 1 {
            WorldSourceType::Particle {
                mat: self.mat,
                node_mode: self.node_mode,
                rate_per_sec: self.rate,
                delay_accum: Single::from_bits(0),
                angle: self.angle,
                speed: self.speed,
            }
        } else {
            WorldSourceType::Gravity { force: self.force }
        }
    }
}

/// The sources of a scene and the number that the next one gets.
pub struct WorldSources {
    pub list: Vec<WorldSource>,
    pub next_id: u32,
}

/// The next source gets the number after the highest one, or 1 where there is none.
pub open spec fn follows_all(list: Seq<WorldSource>, next_id: u32) -> bool {
    &&& list.len() == 0 ==> next_id == 1
    &&& list.len() > 0 ==> exists|i: int|
        0 <= i < list.len() && (#[trigger] list[i]).id + 1 == next_id
    &&& forall|i: int| 0 <= i < list.len() ==> (#[trigger] list[i]).id < next_id
}

/// The sources after a file was loaded over `before`: none where it holds nothing after its
/// particles, those it names where they can be read, and otherwise the ones before.
pub open spec fn restored(
    before: WorldSources,
    nothing: bool,
    list: Option<Seq<WorldSource>>,
    after: WorldSources,
) -> bool {
    if nothing {
        after.list@.len() == 0 && after.next_id == before.next_id
    } else {
        match list {
            Some(v) => after.list@ == v && follows_all(v, after.next_id),
            None => after == before,
        }
    }
}

/// The first `n` sources but those with the number `id`.
pub open spec fn without(list: Seq<WorldSource>, id: u32, n: int) -> Seq<WorldSource>
    decreases n,
{
    if n <= 0 {
        seq![]
    } else if list[n - 1].id != id {
        without(list, id, n - 1).push(list[n - 1])
    } else {
        without(list, id, n - 1)
    }
}

/// Some source has the number `id`.
pub open spec fn in_use(list: Seq<WorldSource>, id: u32) -> bool {
    exists|i: int| 0 <= i < list.len() && (#[trigger] list[i]).id == id
}

/// `i` is the first source with the number `id`.
pub open spec fn first_with(list: Seq<WorldSource>, id: u32, i: int) -> bool {
    &&& 0 <= i < list.len()
    &&& list[i].id == id
    &&& forall|j: int| 0 <= j < i ==> (#[trigger] list[j]).id != id
}

/// `i` is the first source that the cursor touches; `dists` are the distances from it.
pub open spec fn first_touched(dists: Seq<Single>, i: int) -> bool {
    &&& 0 <= i < dists.len()
    &&& dists[i].less(num(ONE))
    &&& forall|j: int| 0 <= j < i ==> !(#[trigger] dists[j]).less(num(ONE))
}

/// `r` is the number of the first source that the cursor touches.
pub open spec fn names_first_touched(list: Seq<WorldSource>, dists: Seq<Single>, r: Option<u32>) -> bool {
    &&& r is None <==> forall|i: int| !first_touched(dists, i)
    &&& forall|i: int| first_touched(dists, i) ==> r == Some(list[i].id)
}

/// The centres of attraction among the first `n` sources.
pub open spec fn attracting(list: Seq<WorldSource>, n: int) -> Seq<WorldSource>
    decreases n,
{
    if n <= 0 {
        seq![]
    } else if list[n - 1].source_type is Gravity {
        attracting(list, n - 1).push(list[n - 1])
    } else {
        attracting(list, n - 1)
    }
}

/// `cells` holds position, radius and force of the first `count` sources of `list`, four numbers
/// each, and zeros after them.
pub open spec fn packs(cells: Seq<Single>, list: Seq<WorldSource>, count: int) -> bool {
    &&& cells.len() == 32
    &&& forall|g: int|
        0 <= g < count ==> {
            &&& cells[4 * g] == (#[trigger] list[g]).pos@[0]
            &&& cells[4 * g + 1] == list[g].pos@[1]
            &&& cells[4 * g + 2] == list[g].radius
            &&& cells[4 * g + 3] == list[g].source_type->force
        }
    &&& forall|i: int| 4 * count <= i < 32 ==> #[trigger] cells[i] == num(0)
}

impl WorldSources {
    /// Every number in use is below the next one.
    pub open spec fn wf(self) -> bool {
        forall|i: int| 0 <= i < self.list@.len() ==> (#[trigger] self.list@[i]).id < self.next_id
    }

    /// No two sources have the same number.
    pub open spec fn distinct(self) -> bool {
        forall|i: int, j: int|
            0 <= i < j < self.list@.len() ==> (#[trigger] self.list@[i]).id != (
            #[trigger] self.list@[j]).id
    }

    /// No sources; numbers start at 1.
    pub fn new() -> (r: Self)
        ensures
            r.wf(),
            r.distinct(),
            r.list@ == Seq::<WorldSource>::empty(),
            r.next_id == 1,
    {
        WorldSources { list: Vec::new(), next_id: 1 }
    }

    /// Places a source and returns its number.
    pub fn place(&mut self, pos: [Single; 2], settings: &SourceSettings) -> (id: u32)
        requires
            old(self).wf(),
            old(self).next_id < u32::MAX,
        ensures
            final(self).wf(),
            old(self).distinct() ==> final(self).distinct(),
            id == old(self).next_id,
            final(self).next_id == old(self).next_id + 1,
            final(self).list@.len() == old(self).list@.len() + 1,
            final(self).list@.drop_last() == old(self).list@,
            final(self).list@.last().id == id,
            final(self).list@.last().pos == pos,
            final(self).list@.last().radius == settings.radius,
            settings.makes(final(self).list@.last().source_type),
    {
        let id: u32 = self.next_id;
        self.list.push(
            WorldSource { id, pos, radius: settings.radius, source_type: settings.source_type() },
        );
        self.next_id = id + 1;
        assert(self.list@.drop_last() =~= old(self).list@);
        id
    }

    /// The number of the first source that the cursor touches.
    pub fn hit(&self, dists: &Vec<Single>) -> (r: Option<u32>)
        requires
            dists@.len() == self.list@.len(),
        ensures
            r is None <==> forall|i: int| !first_touched(dists@, i),
            forall|i: int| first_touched(dists@, i) ==> r == Some(self.list@[i].id),
            names_first_touched(self.list@, dists@, r),
    {
        let mut i: usize = 0;
        while i < self.list.len()
            invariant
                i <= self.list@.len(),
                dists@.len() == self.list@.len(),
                forall|j: int| 0 <= j < i ==> !(#[trigger] dists@[j]).less(num(ONE)),
            decreases self.list@.len() - i,
        {
            if dists[i].lt(Single::from_bits(ONE)) {
                assert(first_touched(dists@, i as int));
                return Some(self.list[i].id);
            }
            i += 1;
        }
        None
    }

    /// Where the first source with a number stands in the list.
    pub fn find(&self, id: u32) -> (r: Option<usize>)
        ensures
            match r {
                Some(i) => first_with(self.list@, id, i as int),
                None => forall|i: int| 0 <= i < self.list@.len() ==> self.list@[i].id != id,
            },
            r is Some <==> in_use(self.list@, id),
    {
        let mut i: usize = 0;
        while i < self.list.len()
            invariant
                i <= self.list@.len(),
                forall|j: int| 0 <= j < i ==> (#[trigger] self.list@[j]).id != id,
            decreases self.list@.len() - i,
        {
            if self.list[i].id == id {
                assert(self.list@[i as int].id == id);
                return Some(i);
            }
            i += 1;
        }
        None
    }

    /// Moves the first source with a number; where there is none, nothing changes.
    pub fn move_to(&mut self, id: u32, pos: [Single; 2])
        ensures
            old(self).wf() ==> final(self).wf(),
            old(self).distinct() ==> final(self).distinct(),
            final(self).next_id == old(self).next_id,
            final(self).list@.len() == old(self).list@.len(),
            forall|i: int|
                0 <= i < final(self).list@.len() ==> #[trigger] final(self).list@[i]
                    == if first_with(old(self).list@, id, i) {
                    (WorldSource { pos, ..old(self).list@[i] })
                } else {
                    old(self).list@[i]
                },
    {
        match self.find(id) {
            Some(i) => {
                let mut s: WorldSource = self.list[i];
                s.pos = pos;
                self.list[i] = s;
                assert forall|j: int| 0 <= j < self.list@.len() implies (first_with(
                    old(self).list@,
                    id,
                    j,
                ) <==> j == i) by {
                    if j > i {
                        assert(old(self).list@[i as int].id == id);
                    }
                }
            },
            None => {},
        }
    }

    /// Removes the sources with a number.
    pub fn remove(&mut self, id: u32)
        ensures
            old(self).wf() ==> final(self).wf(),
            old(self).distinct() ==> final(self).distinct(),
            final(self).next_id == old(self).next_id,
            final(self).list@ == without(old(self).list@, id, old(self).list@.len() as int),
    {
        let mut kept: Vec<WorldSource> = Vec::new();
        let mut i: usize = 0;
        while i < self.list.len()
            invariant
                i <= self.list@.len(),
                *self == *old(self),
                kept@ == without(self.list@, id, i as int),
            decreases self.list@.len() - i,
        {
            if self.list[i].id != id {
                kept.push(self.list[i]);
            }
            i += 1;
        }
        proof {
            lemma_without(self.list@, id, self.list@.len() as int);
        }
        self.list = kept;
    }

    /// Removes all sources. Their numbers are not given again.
    pub fn clear(&mut self)
        ensures
            final(self).wf(),
            final(self).distinct(),
            final(self).next_id == old(self).next_id,
            final(self).list@ == Seq::<WorldSource>::empty(),
    {
        self.list = Vec::new();
    }

    /// Whether the next number can be told after these sources.
    pub fn can_load(list: &Vec<WorldSource>) -> (r: bool)
        ensures
            r == forall|i: int| 0 <= i < list@.len() ==> (#[trigger] list@[i]).id < u32::MAX,
            r == !in_use(list@, u32::MAX),
    {
        let mut i: usize = 0;
        while i < list.len()
            invariant
                i <= list@.len(),
                forall|j: int| 0 <= j < i ==> (#[trigger] list@[j]).id < u32::MAX,
            decreases list@.len() - i,
        {
            if list[i].id == u32::MAX {
                return false;
            }
            i += 1;
        }
        true
    }

    /// Takes over the sources of a file. Numbers go on after the highest one.
    pub fn load(&mut self, list: Vec<WorldSource>)
        requires
            forall|i: int| 0 <= i < list@.len() ==> (#[trigger] list@[i]).id < u32::MAX,
        ensures
            final(self).wf(),
            final(self).list@ == list@,
            follows_all(list@, final(self).next_id),
    {
        let mut highest: u32 = 0;
        let mut i: usize = 0;
        while i < list.len()
            invariant
                i <= list@.len(),
                forall|j: int| 0 <= j < list@.len() ==> (#[trigger] list@[j]).id < u32::MAX,
                highest < u32::MAX,
                forall|j: int| 0 <= j < i ==> (#[trigger] list@[j]).id <= highest,
                i == 0 ==> highest == 0,
                i > 0 ==> exists|j: int| 0 <= j < i && (#[trigger] list@[j]).id == highest,
            decreases list@.len() - i,
        {
            if list[i].id >= highest {
                highest = list[i].id;
                assert(list@[i as int].id == highest);
            }
            i += 1;
        }
        self.list = list;
        self.next_id = highest + 1;
    }

    /// Takes over what a file holds after its particles: nothing means no sources; what cannot be
    /// read, given as `None`, changes nothing.
    pub fn restore(&mut self, nothing: bool, list: Option<Vec<WorldSource>>)
        requires
            list matches Some(v) ==> forall|i: int|
                0 <= i < v@.len() ==> (#[trigger] v@[i]).id < u32::MAX,
        ensures
            old(self).wf() ==> final(self).wf(),
            restored(
                *old(self),
                nothing,
                match list {
                    Some(v) => Some(v@),
                    None => None,
                },
                *final(self),
            ),
    {
        if nothing {
            self.clear();
        } else {
            match list {
                Some(v) => {
                    self.load(v);
                },
                None => {},
            }
        }
    }

    /// Position, radius and force of the first centres of attraction, and how many there are.
    pub fn pack_gravity(&self) -> (r: ([Single; 32], u32))
        ensures
            r.1 == if attracting(self.list@, self.list@.len() as int).len() < MAX_GRAVITY_SOURCES {
                attracting(self.list@, self.list@.len() as int).len() as int
            } else {
                MAX_GRAVITY_SOURCES as int
            },
            packs(r.0@, attracting(self.list@, self.list@.len() as int), r.1 as int),
    {
        let mut cells: [Single; 32] = [Single::from_bits(0); 32];
        let mut count: usize = 0;
        let mut i: usize = 0;
        while i < self.list.len()
            invariant
                i <= self.list@.len(),
                count <= MAX_GRAVITY_SOURCES,
                count < MAX_GRAVITY_SOURCES ==> count == attracting(self.list@, i as int).len(),
                count == MAX_GRAVITY_SOURCES ==> attracting(self.list@, i as int).len() >= count,
                packs(cells@, attracting(self.list@, i as int), count as int),
            decreases self.list@.len() - i,
        {
            let s: WorldSource = self.list[i];
            match s.source_type {
                WorldSourceType::Gravity { force } => {
                    if count < MAX_GRAVITY_SOURCES {
                        let ghost before = cells@;
                        let ghost seen = attracting(self.list@, i as int);
                        let at: usize = count * 4;
                        cells[at] = s.pos[0];
                        cells[at + 1] = s.pos[1];
                        cells[at + 2] = s.radius;
                        cells[at + 3] = force;
                        count += 1;
                        proof {
                            let now = attracting(self.list@, i + 1);
                            assert forall|g: int| 0 <= g < count implies {
                                &&& cells@[4 * g] == (#[trigger] now[g]).pos@[0]
                                &&& cells@[4 * g + 1] == now[g].pos@[1]
                                &&& cells@[4 * g + 2] == now[g].radius
                                &&& cells@[4 * g + 3] == now[g].source_type->force
                            } by {
                                if g < count - 1 {
                                    assert(now[g] == seen[g]);
                                    assert(before[4 * g] == seen[g].pos@[0]);
                                }
                            }
                        }
                    } else {
                        proof {
                            let now = attracting(self.list@, i + 1);
                            let seen = attracting(self.list@, i as int);
                            assert forall|g: int| 0 <= g < count implies #[trigger] now[g]
                                == seen[g] by {}
                        }
                    }
                },
                _ => {},
            }
            i += 1;
        }
        (cells, count as u32)
    }
}

proof fn lemma_without(list: Seq<WorldSource>, id: u32, n: int)
    requires
        0 <= n <= list.len(),
    ensures
        forall|i: int|
            0 <= i < without(list, id, n).len() ==> (#[trigger] without(list, id, n)[i]).id != id,
        forall|i: int|
            0 <= i < without(list, id, n).len() ==> exists|j: int|
                0 <= j < n && list[j] == #[trigger] without(list, id, n)[i],
        (forall|i: int, j: int|
            0 <= i < j < n ==> (#[trigger] list[i]).id != (#[trigger] list[j]).id) ==> forall|
            i: int,
            j: int,
        |
            0 <= i < j < without(list, id, n).len() ==> (#[trigger] without(list, id, n)[i]).id != (
            #[trigger] without(list, id, n)[j]).id,
    decreases n,
{
    if n > 0 {
        lemma_without(list, id, n - 1);
        let before = without(list, id, n - 1);
        let all = without(list, id, n);
        assert forall|i: int| 0 <= i < all.len() implies exists|j: int|
            0 <= j < n && list[j] == #[trigger] all[i] by {
            if i < before.len() {
                assert(all[i] == before[i]);
                let j = choose|j: int| 0 <= j < n - 1 && list[j] == before[i];
                assert(list[j] == all[i]);
            } else {
                assert(list[n - 1] == all[i]);
            }
        }
    }
}

/// A removed number names no source any more, and the others stay in their order.
pub proof fn law_removed_source_is_gone(list: Seq<WorldSource>, id: u32, i: int)
    requires
        0 <= i < without(list, id, list.len() as int).len(),
    ensures
        without(list, id, list.len() as int)[i].id != id,
        list.contains(without(list, id, list.len() as int)[i]),
{
    lemma_without(list, id, list.len() as int);
}

/// A source that is placed and removed at once leaves the list as it was.
pub proof fn law_place_and_remove_cancel(list: Seq<WorldSource>, s: WorldSource)
    requires
        forall|i: int| 0 <= i < list.len() ==> (#[trigger] list[i]).id != s.id,
    ensures
        without(list.push(s), s.id, list.len() as int + 1) == list,
{
    lemma_without_absent(list, s, list.len() as int);
    assert(list.subrange(0, list.len() as int) =~= list);
}

proof fn lemma_without_absent(list: Seq<WorldSource>, s: WorldSource, n: int)
    requires
        0 <= n <= list.len(),
        forall|i: int| 0 <= i < list.len() ==> (#[trigger] list[i]).id != s.id,
    ensures
        without(list.push(s), s.id, n) == list.subrange(0, n),
    decreases n,
{
    if n > 0 {
        lemma_without_absent(list, s, n - 1);
        assert(list.push(s)[n - 1] == list[n - 1]);
        assert(list.subrange(0, n) =~= list.subrange(0, n - 1).push(list[n - 1]));
    } else {
        assert(list.subrange(0, 0) =~= seq![]);
    }
}

/// Settings of kind 0 make a yellowish light of unit intensity, of kind 1 an emitter that has not
/// emitted yet, and any other a centre of attraction, each with what the settings say.
pub proof fn law_settings_make_their_kind(settings: SourceSettings, r: WorldSourceType)
    requires
        call_ensures(SourceSettings::source_type, (&settings,), r),
    ensures
        settings.kind == 0 ==> r is Light && r->color@[0].bits == 0x3f80_0000 && r->color@[1].bits
            == 0x3f80_0000 && r->color@[2].bits == 0x3f00_0000 && r->intensity.bits == 0x3f80_0000,
        settings.kind == 1 ==> r is Particle && r->mat == settings.mat && r->node_mode
            == settings.node_mode && r->rate_per_sec == settings.rate && r->delay_accum.bits == 0
            && r->angle == settings.angle && r->speed == settings.speed,
        settings.kind > 1 ==> r is Gravity && r->force == settings.force,
{
}

/// There are no sources at first, and the first one gets the number 1.
pub proof fn law_sources_start_empty(r: WorldSources)
    requires
        call_ensures(WorldSources::new, (), r),
    ensures
        r.list@.len() == 0,
        r.next_id == 1,
{
}

/// A placed source stands behind the others, where it was placed, with the settings it was placed
/// with, under a number that no other has; the next one gets the number after it.
pub proof fn law_placed_source_is_the_last(
    sources: &mut WorldSources,
    pos: [Single; 2],
    settings: SourceSettings,
    id: u32,
    t: WorldSourceType,
    j: int,
)
    requires
        old(sources).wf(),
        old(sources).next_id < u32::MAX,
        call_ensures(WorldSources::place, (sources, pos, &settings), id),
        call_ensures(SourceSettings::source_type, (&settings,), t),
        0 <= j < old(sources).list@.len() || old(sources).list@.len() == 0,
    ensures
        id == old(sources).next_id,
        final(sources).next_id == id + 1,
        final(sources).list@.len() == old(sources).list@.len() + 1,
        ({
            let s = final(sources).list@[old(sources).list@.len() as int];
            &&& s.id == id
            &&& s.pos == pos
            &&& s.radius == settings.radius
            &&& settings.kind != 0 ==> s.source_type == t
            &&& settings.kind == 0 ==> s.source_type is Light && s.source_type->color@ == t->color@
                && s.source_type->intensity == t->intensity
        }),
        old(sources).list@.len() > 0 ==> final(sources).list@[j] == old(sources).list@[j]
            && final(sources).list@[j].id != id,
{
    if old(sources).list@.len() > 0 {
        assert(final(sources).list@.drop_last()[j] == final(sources).list@[j]);
    }
}

/// The cursor touches the first source that is nearer than 1, and none where none is.
pub proof fn law_first_near_source_is_hit(
    sources: WorldSources,
    dists: Vec<Single>,
    r: Option<u32>,
    i: int,
)
    requires
        dists@.len() == sources.list@.len(),
        call_ensures(WorldSources::hit, (&sources, &dists), r),
    ensures
        0 <= i < dists@.len() && dists@[i].less(num(0x3f80_0000)) && (forall|j: int|
            0 <= j < i ==> !(#[trigger] dists@[j]).less(num(0x3f80_0000))) ==> r == Some(
            sources.list@[i].id,
        ),
        (forall|j: int| 0 <= j < dists@.len() ==> !(#[trigger] dists@[j]).less(num(0x3f80_0000)))
            ==> r is None,
{
    if 0 <= i < dists@.len() && dists@[i].less(num(0x3f80_0000)) && (forall|j: int|
        0 <= j < i ==> !(#[trigger] dists@[j]).less(num(0x3f80_0000))) {
        assert(first_touched(dists@, i));
    }
}

/// A source is found by its number where one has it, and it is the first that has.
pub proof fn law_source_is_found_by_number(sources: WorldSources, id: u32, r: Option<usize>, j: int)
    requires
        call_ensures(WorldSources::find, (&sources, id), r),
        0 <= j < sources.list@.len(),
    ensures
        r matches Some(i) ==> i < sources.list@.len() && sources.list@[i as int].id == id && (j < i
            ==> sources.list@[j].id != id),
        r is None ==> sources.list@[j].id != id,
{
    if r is None {
        assert(!in_use(sources.list@, id));
    }
}

/// Moving a source changes the place of the first one with the number, and nothing else.
pub proof fn law_moving_changes_one_place(
    sources: &mut WorldSources,
    id: u32,
    pos: [Single; 2],
    done: (),
    i: int,
)
    requires
        call_ensures(WorldSources::move_to, (sources, id, pos), done),
        0 <= i < old(sources).list@.len(),
    ensures
        final(sources).next_id == old(sources).next_id,
        final(sources).list@.len() == old(sources).list@.len(),
        ({
            let first = old(sources).list@[i].id == id && forall|j: int|
                0 <= j < i ==> (#[trigger] old(sources).list@[j]).id != id;
            &&& final(sources).list@[i].pos == if first {
                pos
            } else {
                old(sources).list@[i].pos
            }
            &&& final(sources).list@[i].id == old(sources).list@[i].id
            &&& final(sources).list@[i].radius == old(sources).list@[i].radius
            &&& final(sources).list@[i].source_type == old(sources).list@[i].source_type
        }),
{
    let _ = final(sources).list@[i];
    assert(first_with(old(sources).list@, id, i) <==> (old(sources).list@[i].id == id && forall|
        j: int,
    |
        0 <= j < i ==> (#[trigger] old(sources).list@[j]).id != id));
}

proof fn lemma_without_is_filter(list: Seq<WorldSource>, id: u32, n: int)
    requires
        0 <= n <= list.len(),
    ensures
        without(list, id, n) == list.take(n).filter(|s: WorldSource| s.id != id),
    decreases n,
{
    reveal(Seq::filter);
    if n > 0 {
        lemma_without_is_filter(list, id, n - 1);
        assert(list.take(n).drop_last() =~= list.take(n - 1));
    }
}

proof fn lemma_attracting_is_filter(list: Seq<WorldSource>, n: int)
    requires
        0 <= n <= list.len(),
    ensures
        attracting(list, n) == list.take(n).filter(|s: WorldSource| s.source_type is Gravity),
    decreases n,
{
    reveal(Seq::filter);
    if n > 0 {
        lemma_attracting_is_filter(list, n - 1);
        assert(list.take(n).drop_last() =~= list.take(n - 1));
    }
}

/// Removing a number leaves exactly the sources that have another, in their order, and gives no
/// number again; clearing leaves none.
pub proof fn law_removing_leaves_the_others(
    sources: &mut WorldSources,
    id: u32,
    cleared: &mut WorldSources,
    done: (),
)
    requires
        call_ensures(WorldSources::remove, (sources, id), done),
        call_ensures(WorldSources::clear, (cleared,), done),
    ensures
        final(sources).list@ == old(sources).list@.filter(|s: WorldSource| s.id != id),
        final(sources).next_id == old(sources).next_id,
        final(cleared).list@.len() == 0,
        final(cleared).next_id == old(cleared).next_id,
{
    let list = old(sources).list@;
    lemma_without_is_filter(list, id, list.len() as int);
    assert(list.take(list.len() as int) =~= list);
}

/// Loaded sources are taken over as they are, and the next number is one above the highest; sources
/// can be loaded exactly if none has the highest number there is.
pub proof fn law_loading_goes_on_counting(
    sources: &mut WorldSources,
    list: Vec<WorldSource>,
    done: (),
    fits: bool,
    i: int,
)
    requires
        call_ensures(WorldSources::can_load, (&list,), fits),
        fits ==> call_ensures(WorldSources::load, (sources, list), done),
        0 <= i < list@.len() || list@.len() == 0,
    ensures
        list@.len() > 0 && list@[i].id == u32::MAX ==> !fits,
        !fits ==> exists|j: int| 0 <= j < list@.len() && (#[trigger] list@[j]).id == u32::MAX,
        fits ==> final(sources).list@ == list@,
        fits && list@.len() == 0 ==> final(sources).next_id == 1,
        fits && list@.len() > 0 ==> list@[i].id < final(sources).next_id && exists|j: int|
            0 <= j < list@.len() && (#[trigger] list@[j]).id == final(sources).next_id - 1,
{
    if list@.len() > 0 && list@[i].id == u32::MAX {
        assert(in_use(list@, u32::MAX));
    }
    if fits {
        assert forall|j: int| 0 <= j < list@.len() implies (#[trigger] list@[j]).id < u32::MAX by {
            if list@[j].id == u32::MAX {
                assert(in_use(list@, u32::MAX));
            }
        }
        if list@.len() > 0 {
            let j = choose|j: int|
                0 <= j < list@.len() && (#[trigger] list@[j]).id + 1 == final(sources).next_id;
            assert(list@[j].id == final(sources).next_id - 1);
        }
    }
}

/// A file without sources clears them, one whose sources cannot be read changes nothing, and any
/// other loads them.
pub proof fn law_restoring_clears_keeps_or_loads(
    sources: &mut WorldSources,
    nothing: bool,
    list: Option<Vec<WorldSource>>,
    done: (),
    i: int,
)
    requires
        list matches Some(v) ==> forall|j: int|
            0 <= j < v@.len() ==> (#[trigger] v@[j]).id < u32::MAX,
        call_ensures(WorldSources::restore, (sources, nothing, list), done),
    ensures
        nothing ==> final(sources).list@.len() == 0 && final(sources).next_id == old(sources).next_id,
        !nothing && list is None ==> *final(sources) == *old(sources),
        !nothing && list is Some ==> final(sources).list@ == list->0@,
        !nothing && list is Some && list->0@.len() == 0 ==> final(sources).next_id == 1,
        !nothing && list is Some && 0 <= i < list->0@.len() ==> list->0@[i].id < final(sources).next_id,
        !nothing && list is Some && list->0@.len() > 0 ==> exists|j: int|
            0 <= j < list->0@.len() && (#[trigger] list->0@[j]).id == final(sources).next_id - 1,
{
    if !nothing && list is Some && list->0@.len() > 0 {
        let v = list->0@;
        let j = choose|j: int| 0 <= j < v.len() && (#[trigger] v[j]).id + 1 == final(sources).next_id;
        assert(v[j].id == final(sources).next_id - 1);
    }
}

/// The device is told of the first eight centres of attraction, in their order: position, radius and
/// force of each, and zeros after the last.
pub proof fn law_first_eight_centres_are_packed(
    sources: WorldSources,
    r: ([Single; 32], u32),
    g: int,
    k: int,
)
    requires
        call_ensures(WorldSources::pack_gravity, (&sources,), r),
        0 <= k < 32,
    ensures
        ({
            let centres = sources.list@.filter(|s: WorldSource| s.source_type is Gravity);
            &&& centres.len() <= 8 ==> r.1 == centres.len()
            &&& centres.len() > 8 ==> r.1 == 8
            &&& 0 <= g < r.1 ==> {
                &&& r.0@[4 * g] == centres[g].pos@[0]
                &&& r.0@[4 * g + 1] == centres[g].pos@[1]
                &&& r.0@[4 * g + 2] == centres[g].radius
                &&& r.0@[4 * g + 3] == centres[g].source_type->force
            }
            &&& 4 * r.1 <= k ==> r.0@[k].bits == 0
        }),
{
    let list = sources.list@;
    lemma_attracting_is_filter(list, list.len() as int);
    assert(list.take(list.len() as int) =~= list);
    let centres = attracting(list, list.len() as int);
    if 0 <= g < r.1 {
        let _ = centres[g];
    }
    let _ = r.0@[k];
}

} // verus!
