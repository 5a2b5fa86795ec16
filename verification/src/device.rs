//! Working with the graphics device: which backend is used, how its work is divided, and how the
//! particles are kept in step with it.
use vstd::prelude::*;
use crate::capacity::ComputeMode;
use crate::cpu_physics::{GRID_H, GRID_W};
use crate::particle::Particle;
use crate::single::{num, ONE};
use crate::spawn::{at_rest, blank, NOWHERE};

verus! {

/// How many backends can compute on the graphics card.
pub const GPU_BACKENDS: u32 = 3;

/// Particles, or cells, that one group of the device works on.
pub const GROUP_SIZE: u32 = 64;

/// The most groups side by side.
pub const MAX_GROUPS_WIDE: u32 = 1000;

/// Bytes of a particle in a buffer.
pub const RECORD_BYTES: u64 = 64;

/// The search for a backend: those that can compute on the graphics card are tried first, in
/// order, and after them whatever can at least draw.
#[derive(Clone, Copy, Debug, PartialEq, Eq)]
pub enum Search {
    /// Backend `i` is tried; the last number stands for anything that draws.
    Trying(u32),
    /// Backend `i` works.
    Found(u32),
    /// Nothing works.
    Failed,
}

/// What follows when the backend being tried works or does not.
pub open spec fn after_try(s: Search, works: bool) -> Search {
    match s {
        Search::Trying(i) => if works {
            Search::Found(i)
        } else if i < GPU_BACKENDS {
            Search::Trying((i + 1) as u32)
        } else {
            Search::Failed
        },
        _ => s,
    }
}

/// The search after the first `n` tries.
pub open spec fn search_after(works: Seq<bool>, n: int) -> Search
    decreases n,
{
    if n <= 0 {
        Search::Trying(0)
    } else {
        after_try(search_after(works, n - 1), works[n - 1])
    }
}

impl Search {
    /// The search begins with the first backend.
    pub fn begin() -> (r: Self)
        ensures
            r == Search::Trying(0),
    {
        Search::Trying(0)
    }

    /// Goes on when the backend being tried works or does not.
    pub fn advance(self, works: bool) -> (r: Self)
        ensures
            r == after_try(self, works),
    {
        match self {
            Search::Trying(i) => {
                if works {
                    Search::Found(i)
                } else if i < GPU_BACKENDS {
                    Search::Trying(i + 1)
                } else {
                    Search::Failed
                }
            },
            Search::Found(i) => Search::Found(i),
            Search::Failed => Search::Failed,
        }
    }

    /// Where the physics are computed with the backend that was found.
    pub fn mode(&self) -> (r: Option<ComputeMode>)
        ensures
            r == match *self {
                Search::Found(i) => if i < GPU_BACKENDS {
                    Some(ComputeMode::Gpu)
                } else {
                    Some(ComputeMode::Cpu)
                },
                _ => None,
            },
    {
        match self {
            Search::Found(i) => {
                if *i < GPU_BACKENDS {
                    Some(ComputeMode::Gpu)
                } else {
                    Some(ComputeMode::Cpu)
                }
            },
            _ => None,
        }
    }
}

/// The surface format to use: the first that holds sRGB colours, or the first of all.
pub fn pick_format(srgb: &Vec<bool>) -> (r: usize)
    requires
        srgb@.len() > 0,
    ensures
        r < srgb@.len(),
        srgb@[r as int] ==> forall|i: int| 0 <= i < r ==> !srgb@[i],
        !srgb@[r as int] ==> r == 0 && forall|i: int| 0 <= i < srgb@.len() ==> !srgb@[i],
{
    let mut i: usize = 0;
    while i < srgb.len()
        invariant
            i <= srgb@.len(),
            forall|j: int| 0 <= j < i ==> !srgb@[j],
        decreases srgb@.len() - i,
    {
        if srgb[i] {
            return i;
        }
        i += 1;
    }
    0
}

/// The number of groups for `n` particles.
pub open spec fn groups_for(n: int) -> int {
    (n + GROUP_SIZE - 1) / GROUP_SIZE as int
}

/// Groups side by side and rows of them.
#[derive(Clone, Copy, Debug, PartialEq, Eq)]
pub struct Groups {
    pub wide: u32,
    pub high: u32,
}

/// The groups are enough for `n` particles, are not too many side by side, and one row less
/// would not be enough.
pub open spec fn cover(g: Groups, n: int) -> bool {
    &&& 0 < g.wide <= MAX_GROUPS_WIDE
    &&& g.wide == if groups_for(n) < MAX_GROUPS_WIDE {
        groups_for(n)
    } else {
        MAX_GROUPS_WIDE as int
    }
    &&& g.high == (groups_for(n) + g.wide - 1) / g.wide as int
}

/// The groups for `n` particles; `None` where there is none.
pub fn groups(n: u32) -> (r: Option<Groups>)
    requires
        n <= u32::MAX - 63,
    ensures
        r is None <==> n == 0,
        r matches Some(g) ==> cover(g, n as int),
{
    let all: u32 = (n + 63) / GROUP_SIZE;
    if all == 0 {
        return None;
    }
    let wide: u32 = if all < MAX_GROUPS_WIDE {
        all
    } else {
        MAX_GROUPS_WIDE
    };
    let high: u32 = (all + wide - 1) / wide;
    Some(Groups { wide, high })
}

/// The number of groups for the cells of the grid.
pub fn grid_groups() -> (r: u32)
    ensures
        r == groups_for(GRID_W * GRID_H),
{
    (GRID_W * GRID_H + 63) / GROUP_SIZE
}

/// What the device is to compute in a frame.
#[derive(Clone, Copy, Debug, PartialEq, Eq)]
pub enum PassPlan {
    /// Nothing.
    Nothing,
    /// Whole steps, this many times.
    Steps { times: u32, groups: Groups },
    /// Only what the tool does, once.
    ToolOnly { groups: Groups },
}

/// What the device is to compute in a frame: steps while the simulation runs; while it is paused,
/// a tool still acts.
pub fn pass_plan(paused: bool, tool: u32, active: u32, substeps: u32) -> (r: PassPlan)
    requires
        active <= u32::MAX - 63,
    ensures
        match r {
            PassPlan::Nothing => active == 0 || paused && tool == 0,
            PassPlan::Steps { times, groups } => active > 0 && !paused && times == substeps && cover(
                groups,
                active as int,
            ),
            PassPlan::ToolOnly { groups } => active > 0 && paused && tool != 0 && cover(
                groups,
                active as int,
            ),
        },
{
    match groups(active) {
        None => PassPlan::Nothing,
        Some(groups) => {
            if !paused {
                PassPlan::Steps { times: substeps, groups }
            } else if tool != 0 {
                PassPlan::ToolOnly { groups }
            } else {
                PassPlan::Nothing
            }
        },
    }
}

/// How many instances are drawn: one even where there is no particle.
pub fn drawn_count(active: u32) -> (r: u32)
    ensures
        r == if active > 0 {
            active
        } else {
            1
        },
{
    if active > 0 {
        active
    } else {
        1
    }
}

/// A range of bytes of a buffer.
#[derive(Clone, Copy, Debug, PartialEq, Eq)]
pub struct ByteRange {
    pub offset: u64,
    pub size: u64,
}

/// The bytes of particles `from` up to `to`.
pub fn byte_range(from: u32, to: u32) -> (r: ByteRange)
    requires
        from <= to,
    ensures
        r.offset == from * RECORD_BYTES,
        r.size == (to - from) * RECORD_BYTES,
{
    ByteRange { offset: from as u64 * RECORD_BYTES, size: (to - from) as u64 * RECORD_BYTES }
}

/// The slots that hold no particle yet.
pub open spec fn is_blank(p: Particle) -> bool {
    &&& p.pos@ == seq![num(NOWHERE), num(NOWHERE)]
    &&& at_rest(p, p.pos, 0, num(ONE), num(ONE))
}

/// Lengthens the list to the active particles and returns the bytes to be read from the device
/// for the new ones; `None` where the list was long enough, or where the bytes do not fit the
/// buffer they are read through.
pub fn catch_up(held: &mut Vec<Particle>, active: u32, staging: u64) -> (r: Option<ByteRange>)
    ensures
        final(held)@.len() == if old(held)@.len() < active {
            active as int
        } else {
            old(held)@.len() as int
        },
        forall|i: int|
            0 <= i < old(held)@.len() ==> #[trigger] final(held)@[i] == old(held)@[i],
        forall|i: int|
            old(held)@.len() <= i < final(held)@.len() ==> is_blank(#[trigger] final(held)@[i]),
        r is Some <==> old(held)@.len() < active && (active - old(held)@.len()) * RECORD_BYTES
            <= staging,
        r matches Some(b) ==> b.offset == old(held)@.len() * RECORD_BYTES && b.size == (active
            - old(held)@.len()) * RECORD_BYTES,
{
    let had: usize = held.len();
    if had >= active as usize {
        return None;
    }
    while held.len() < active as usize
        invariant
            old(held)@.len() <= held@.len() <= active,
            forall|i: int| 0 <= i < old(held)@.len() ==> #[trigger] held@[i] == old(held)@[i],
            forall|i: int| old(held)@.len() <= i < held@.len() ==> is_blank(#[trigger] held@[i]),
        decreases active - held@.len(),
    {
        held.push(blank());
    }
    let b: ByteRange = byte_range(had as u32, active);
    if b.size <= staging {
        Some(b)
    } else {
        None
    }
}

/// Puts particles that were read from the device in their places, from `at` on.
pub fn adopt(held: &mut Vec<Particle>, at: usize, fresh: &Vec<Particle>)
    requires
        at + fresh@.len() <= old(held)@.len(),
    ensures
        final(held)@.len() == old(held)@.len(),
        forall|i: int|
            0 <= i < final(held)@.len() ==> #[trigger] final(held)@[i] == if at <= i < at
                + fresh@.len() {
                fresh@[i - at]
            } else {
                old(held)@[i]
            },
{
    let mut k: usize = 0;
    let total: usize = held.len();
    while k < fresh.len()
        invariant
            k <= fresh@.len(),
            total == held@.len(),
            held@.len() == old(held)@.len(),
            at + fresh@.len() <= held@.len(),
            forall|i: int|
                0 <= i < held@.len() ==> #[trigger] held@[i] == if at <= i < at + k {
                    fresh@[i - at]
                } else {
                    old(held)@[i]
                },
        decreases fresh@.len() - k,
    {
        held[at + k] = fresh[k];
        k += 1;
    }
}

/// The search finds the first backend that works, and gives up only when none does.
pub proof fn law_first_working_backend_is_found(works: Seq<bool>, n: int)
    requires
        0 <= n <= GPU_BACKENDS + 1,
        works.len() >= GPU_BACKENDS + 1,
    ensures
        match search_after(works, n) {
            Search::Trying(i) => i == n && n <= GPU_BACKENDS && forall|j: int|
                0 <= j < n ==> !works[j],
            Search::Found(i) => i < n && works[i as int] && forall|j: int|
                0 <= j < i ==> !works[j],
            Search::Failed => n == GPU_BACKENDS + 1 && forall|j: int| 0 <= j < n ==> !works[j],
        },
    decreases n,
{
    if n > 0 {
        law_first_working_backend_is_found(works, n - 1);
    }
}

/// The groups reach every particle, and one row of groups less would miss some.
pub proof fn law_groups_reach_every_particle(g: Groups, n: int)
    requires
        0 < n <= u32::MAX - 63,
        cover(g, n),
    ensures
        g.wide * g.high * GROUP_SIZE >= n,
        g.wide * (g.high - 1) * GROUP_SIZE < n,
{
    let all = groups_for(n);
    let (w, h) = (g.wide as int, g.high as int);
    assert(all * 64 >= n && (all - 1) * 64 < n);
    assert(w * h >= all && w * (h - 1) < all) by (nonlinear_arith)
        requires
            w > 0,
            h == (all + w - 1) / w,
    ;
    assert((w * h) * 64 >= all * 64) by (nonlinear_arith)
        requires
            w * h >= all,
    ;
    assert((w * (h - 1)) * 64 <= (all - 1) * 64) by (nonlinear_arith)
        requires
            w * (h - 1) <= all - 1,
    ;
}

/// The search begins with the first backend, goes on to the next while one does not work, and ends
/// with the first that does or, after the fourth, with none. Three of the four compute on the
/// graphics card.
pub proof fn law_search_tries_one_after_the_other(
    start: Search,
    s: Search,
    works: bool,
    r: Search,
    mode: Option<ComputeMode>,
)
    requires
        call_ensures(Search::begin, (), start),
        call_ensures(Search::advance, (s, works), r),
        call_ensures(Search::mode, (&s,), mode),
    ensures
        start == Search::Trying(0),
        s matches Search::Trying(i) ==> {
            &&& works ==> r == Search::Found(i)
            &&& !works && i < 3 ==> r == Search::Trying((i + 1) as u32)
            &&& !works && i >= 3 ==> r == Search::Failed
            &&& mode is None
        },
        s matches Search::Found(i) ==> {
            &&& r == s
            &&& i < 3 ==> mode == Some(ComputeMode::Gpu)
            &&& i >= 3 ==> mode == Some(ComputeMode::Cpu)
        },
        s is Failed ==> r == s && mode is None,
{
}

/// The first format that holds sRGB colours is picked, and the first of all where none does.
pub proof fn law_first_srgb_format_is_picked(srgb: Vec<bool>, r: usize, i: int)
    requires
        srgb@.len() > 0,
        call_ensures(pick_format, (&srgb,), r),
        0 <= i < srgb@.len(),
    ensures
        r < srgb@.len(),
        srgb@[i] ==> srgb@[r as int] && r <= i,
        !srgb@[r as int] ==> r == 0 && !srgb@[i],
{
    let _ = srgb@[i];
}

/// There are groups exactly if there are particles: enough for all, at most a thousand side by side,
/// none of them needless as long as they fit in one row, and no needless row.
pub proof fn law_groups_are_just_enough(n: u32, r: Option<Groups>, cells: u32)
    requires
        n <= u32::MAX - 63,
        call_ensures(groups, (n,), r),
        call_ensures(grid_groups, (), cells),
    ensures
        r is None <==> n == 0,
        r matches Some(g) ==> {
            &&& 0 < g.wide <= 1000
            &&& g.wide * g.high * 64 >= n
            &&& g.wide * (g.high - 1) * 64 < n
            &&& g.wide < 1000 ==> g.high == 1
            &&& g.high == 1 ==> (g.wide - 1) * 64 < n
        },
        cells * 64 == 1024 * 1024,
{
    match r {
        Some(g) => {
            law_groups_reach_every_particle(g, n as int);
            if g.wide < 1000 {
                let w = g.wide as int;
                lemma_one_row(w);
            }
        },
        None => {},
    }
}

/// As many groups as go side by side take one row.
proof fn lemma_one_row(w: int)
    requires
        0 < w,
    ensures
        (w + w - 1) / w == 1,
{
    vstd::arithmetic::div_mod::lemma_fundamental_div_mod_converse(w + w - 1, w, 1, w - 1);
}

/// A frame computes nothing without particles. Otherwise it computes all its steps while the
/// simulation runs, and while it is paused just the tool, where one is in use.
pub proof fn law_paused_frames_apply_the_tool(
    paused: bool,
    tool: u32,
    active: u32,
    substeps: u32,
    r: PassPlan,
    g: Option<Groups>,
)
    requires
        active <= u32::MAX - 63,
        call_ensures(pass_plan, (paused, tool, active, substeps), r),
        call_ensures(groups, (active,), g),
    ensures
        r is Nothing <==> active == 0 || paused && tool == 0,
        r is Steps <==> active > 0 && !paused,
        r is ToolOnly <==> active > 0 && paused && tool != 0,
        r matches PassPlan::Steps { times, groups } ==> times == substeps && g == Some(groups),
        r matches PassPlan::ToolOnly { groups } ==> g == Some(groups),
{
}

/// Every particle is drawn, and one instance where there is none; a particle takes 64 bytes of a
/// buffer.
pub proof fn law_buffers_hold_records(active: u32, drawn: u32, from: u32, to: u32, b: ByteRange)
    requires
        call_ensures(drawn_count, (active,), drawn),
        from <= to,
        call_ensures(byte_range, (from, to), b),
    ensures
        active > 0 ==> drawn == active,
        active == 0 ==> drawn == 1,
        b.offset == 64 * from,
        b.offset + b.size == 64 * to,
{
}

/// The list is lengthened to the active particles and no further, what it held stays, and what is new
/// lies far away until it is read. It is to be read exactly where there is something new that fits.
pub proof fn law_list_catches_up(
    held: &mut Vec<Particle>,
    active: u32,
    staging: u64,
    r: Option<ByteRange>,
    i: int,
    k: int,
)
    requires
        call_ensures(catch_up, (held, active, staging), r),
        0 <= k < 6,
    ensures
        old(held)@.len() < active ==> final(held)@.len() == active,
        old(held)@.len() >= active ==> final(held)@.len() == old(held)@.len(),
        0 <= i < old(held)@.len() ==> final(held)@[i] == old(held)@[i],
        old(held)@.len() <= i < active ==> {
            let p = final(held)@[i];
            &&& p.pos@[0].bits == 0x461c_4000
            &&& p.pos@[1].bits == 0x461c_4000
            &&& p.vel@[0].bits == 0
            &&& p.vel@[1].bits == 0
            &&& p.links@[k] == -1
            &&& p.mat_type == 0
            &&& p.inv_mass.bits == 0x3f80_0000
            &&& p.grav_scale.bits == 0x3f80_0000
        },
        r is Some <==> old(held)@.len() < active && 64 * (active - old(held)@.len()) <= staging,
        r matches Some(b) ==> b.offset == 64 * old(held)@.len() && b.size == 64 * (active - old(held)@.len()),
{
    let _ = final(held)@[i];
}

/// What was read goes to its places, from the given one on, and nothing else changes.
pub proof fn law_read_particles_take_their_places(
    held: &mut Vec<Particle>,
    at: usize,
    fresh: Vec<Particle>,
    done: (),
    i: int,
)
    requires
        at + fresh@.len() <= old(held)@.len(),
        call_ensures(adopt, (held, at, &fresh), done),
    ensures
        final(held)@.len() == old(held)@.len(),
        at <= i < at + fresh@.len() ==> final(held)@[i] == fresh@[i - at],
        0 <= i < at || at + fresh@.len() <= i < old(held)@.len() ==> final(held)@[i] == old(held)@[i],
{
    let _ = final(held)@[i];
}

} // verus!
