//! The six link slots of a particle as ports that point in six directions.
use vstd::prelude::*;
use crate::particle::NO_LINK;
use crate::single::{num, Single};

verus! {

/// Half a turn, in radians.
pub const HALF_TURN: u32 = 0x4049_0fdb;

/// The angle between two directions: `gap`, less than a whole turn, or `back`, what is missing to
/// the whole turn, where the first is more than a half.
pub fn fold(gap: Single, back: Single) -> (r: Single)
    ensures
        r == if num(HALF_TURN).less(gap) {
            back
        } else {
            gap
        },
{
    if gap.gt(Single::from_bits(HALF_TURN)) {
        back
    } else {
        gap
    }
}

/// Port `k` is free and, of all free ports, turned furthest towards a target: `gaps` holds the
/// angle between each port and the target, `limit` the angle it must stay under. Of equally
/// good ports the first counts.
pub open spec fn is_nearest_port(links: Seq<i32>, gaps: Seq<Single>, limit: Single, k: int) -> bool {
    &&& 0 <= k < 6
    &&& links[k] == NO_LINK
    &&& gaps[k].less(limit)
    &&& forall|j: int| 0 <= j < 6 && links[j] == NO_LINK ==> !(#[trigger] gaps[j]).less(gaps[k])
    &&& forall|j: int| 0 <= j < k && links[j] == NO_LINK ==> !(#[trigger] gaps[j]).at_most(gaps[k])
}

/// The free port turned furthest towards a target, if one stays under `limit`.
pub open spec fn nearest_port(links: Seq<i32>, gaps: Seq<Single>, limit: Single) -> Option<int> {
    if exists|k: int| is_nearest_port(links, gaps, limit, k) {
        Some(choose|k: int| is_nearest_port(links, gaps, limit, k))
    } else {
        None
    }
}

/// There is only one nearest port.
pub proof fn law_nearest_port_is_unique(
    links: Seq<i32>,
    gaps: Seq<Single>,
    limit: Single,
    a: int,
    b: int,
)
    requires
        is_nearest_port(links, gaps, limit, a),
        is_nearest_port(links, gaps, limit, b),
    ensures
        a == b,
{
    if a < b {
        assert(!gaps[a].at_most(gaps[b]));
        assert(!gaps[b].less(gaps[a]));
    } else if b < a {
        assert(!gaps[b].at_most(gaps[a]));
        assert(!gaps[a].less(gaps[b]));
    }
}

/// If some free port stays under the limit, there is a nearest one.
pub proof fn law_some_port_is_nearest(links: Seq<i32>, gaps: Seq<Single>, limit: Single, j: int)
    requires
        0 <= j < 6,
        links[j] == NO_LINK,
        gaps[j].less(limit),
    ensures
        nearest_port(links, gaps, limit) is Some,
{
    let k = lemma_nearest_below(links, gaps, limit, 6);
    assert(0 <= k < 6);
    assert(is_nearest_port(links, gaps, limit, k));
}

/// The best of the first `n` ports, or -1.
proof fn lemma_nearest_below(links: Seq<i32>, gaps: Seq<Single>, limit: Single, n: int) -> (k: int)
    requires
        0 <= n <= 6,
    ensures
        k == -1 ==> forall|j: int| 0 <= j < n && links[j] == NO_LINK ==> !(#[trigger] gaps[j]).less(
            limit,
        ),
        k != -1 ==> {
            &&& 0 <= k < n
            &&& links[k] == NO_LINK
            &&& gaps[k].less(limit)
            &&& forall|j: int|
                0 <= j < n && links[j] == NO_LINK ==> !(#[trigger] gaps[j]).less(gaps[k])
            &&& forall|j: int|
                0 <= j < k && links[j] == NO_LINK ==> !(#[trigger] gaps[j]).at_most(gaps[k])
        },
    decreases n,
{
    if n == 0 {
        -1
    } else {
        let k = lemma_nearest_below(links, gaps, limit, n - 1);
        if links[n - 1] != NO_LINK {
            k
        } else if k == -1 {
            if gaps[n - 1].less(limit) {
                n - 1
            } else {
                -1
            }
        } else if gaps[n - 1].less(gaps[k]) {
            n - 1
        } else {
            k
        }
    }
}

/// Finds the free port turned furthest towards a target, if one stays under `limit`.
pub fn find_port(links: &[i32; 6], gaps: &[Single; 6], limit: Single) -> (r: Option<usize>)
    ensures
        nearest_port(links@, gaps@, limit) == match r {
            Some(k) => Some(k as int),
            None => None,
        },
        r is Some ==> r->0 < 6 && links@[r->0 as int] == NO_LINK,
{
    let mut best: Option<usize> = None;
    let mut best_gap: Single = limit;
    let mut k: usize = 0;
    while k < 6
        invariant
            k <= 6,
            best is None ==> best_gap == limit && forall|j: int|
                0 <= j < k && links@[j] == NO_LINK ==> !(#[trigger] gaps@[j]).less(limit),
            best is Some ==> {
                &&& best->0 < k
                &&& links@[best->0 as int] == NO_LINK
                &&& best_gap == gaps@[best->0 as int]
                &&& best_gap.less(limit)
                &&& forall|j: int|
                    0 <= j < k && links@[j] == NO_LINK ==> !(#[trigger] gaps@[j]).less(best_gap)
                &&& forall|j: int|
                    0 <= j < best->0 && links@[j] == NO_LINK ==> !(#[trigger] gaps@[j]).at_most(
                        best_gap,
                    )
            },
        decreases 6 - k,
    {
        if links[k] == NO_LINK {
            if gaps[k].lt(best_gap) {
                best_gap = gaps[k];
                best = Some(k);
            }
        }
        k += 1;
    }
    proof {
        match best {
            Some(b) => {
                assert(is_nearest_port(links@, gaps@, limit, b as int));
                let c = choose|c: int| is_nearest_port(links@, gaps@, limit, c);
                law_nearest_port_is_unique(links@, gaps@, limit, b as int, c);
            },
            None => {},
        }
    }
    best
}

/// How many slots are in use.
pub open spec fn used_slots(links: Seq<i32>, n: int) -> int
    decreases n,
{
    if n <= 0 {
        0
    } else if links[n - 1] == NO_LINK {
        used_slots(links, n - 1)
    } else {
        used_slots(links, n - 1) + 1
    }
}

/// Counts the slots in use.
pub fn count_links(links: &[i32; 6]) -> (r: u32)
    ensures
        r == used_slots(links@, 6),
        r <= 6,
{
    let mut n: u32 = 0;
    let mut k: usize = 0;
    while k < 6
        invariant
            k <= 6,
            n <= k,
            n == used_slots(links@, k as int),
        decreases 6 - k,
    {
        if links[k] != NO_LINK {
            n += 1;
        }
        k += 1;
    }
    n
}

/// The port that is found is free, stays under the limit, and no free port is turned further
/// towards the target; of equally good ones it is the first. None is found exactly where no free
/// port stays under the limit.
pub proof fn law_found_port_is_the_best(
    links: [i32; 6],
    gaps: [Single; 6],
    limit: Single,
    r: Option<usize>,
    j: int,
)
    requires
        call_ensures(find_port, (&links, &gaps, limit), r),
        0 <= j < 6,
    ensures
        r matches Some(k) ==> {
            &&& k < 6
            &&& links@[k as int] == -1
            &&& gaps@[k as int].less(limit)
            &&& links@[j] == -1 ==> !gaps@[j].less(gaps@[k as int])
            &&& links@[j] == -1 && j < k ==> !gaps@[j].at_most(gaps@[k as int])
        },
        links@[j] == -1 && gaps@[j].less(limit) ==> r is Some,
{
    if links@[j] == -1 && gaps@[j].less(limit) {
        law_some_port_is_nearest(links@, gaps@, limit, j);
    }
    match r {
        Some(k) => {
            assert(nearest_port(links@, gaps@, limit) == Some(k as int));
            assert(is_nearest_port(links@, gaps@, limit, k as int));
            let _ = gaps@[j];
        },
        None => {},
    }
}

/// Taking a free slot uses one slot more, and six empty slots use none.
pub proof fn law_taking_a_slot_counts_one(
    links: [i32; 6],
    taken: [i32; 6],
    k: int,
    before: u32,
    after: u32,
)
    requires
        call_ensures(count_links, (&links,), before),
        call_ensures(count_links, (&taken,), after),
        0 <= k < 6,
    ensures
        links@[k] == -1 && taken@ == links@.update(k, taken@[k]) && taken@[k] != -1 ==> after
            == before + 1,
        (forall|j: int| 0 <= j < 6 ==> links@[j] == -1) ==> before == 0,
        (forall|j: int| 0 <= j < 6 ==> links@[j] != -1) <==> before == 6,
        before <= 6,
{
    reveal_with_fuel(used_slots, 7);
    if taken@ == links@.update(k, taken@[k]) {
        assert forall|j: int| 0 <= j < 6 && j != k implies taken@[j] == links@[j] by {}
    }
    assert(links@[0] == links@[0] && links@[1] == links@[1] && links@[2] == links@[2] && links@[3]
        == links@[3] && links@[4] == links@[4] && links@[5] == links@[5]);
}

/// An angle up to half a turn stays, and a wider one is taken from the other side.
pub proof fn law_angles_are_folded_at_half_a_turn(gap: Single, back: Single, r: Single)
    requires
        call_ensures(fold, (gap, back), r),
    ensures
        num(0x4049_0fdb).less(gap) ==> r == back,
        !num(0x4049_0fdb).less(gap) ==> r == gap,
{
}

} // verus!
