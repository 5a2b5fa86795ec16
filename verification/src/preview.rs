//! What is drawn under the cursor before a tool acts.
use vstd::prelude::*;
use crate::single::{Single, SIGN_BIT};

verus! {

/// Only every so many particles of a large blueprint are drawn under the cursor.
pub fn preview_stride(count: usize) -> (r: usize)
    ensures
        r == if count > 50_000 {
            8int
        } else if count > 10_000 {
            3
        } else {
            1
        },
{
    if count > 50_000 {
        8
    } else if count > 10_000 {
        3
    } else {
        1
    }
}

/// A number that grows with a measured one.
pub open spec fn ascending(s: Single) -> u32 {
    if s.negative() {
        (u32::MAX - s.bits) as u32
    } else {
        (s.bits + SIGN_BIT) as u32
    }
}

/// Pairs in their order: by the first number, and where that is equal by the second.
pub open spec fn in_order(a: (u32, u32), b: (u32, u32)) -> bool {
    a.0 < b.0 || a.0 == b.0 && a.1 <= b.1
}

/// Calls `sort_unstable` of slices. The contract claims that the same pairs are there afterwards,
/// in ascending order; pairs of integers are ordered by their first number and, where that is
/// equal, by their second.
#[verifier::external_body]
fn sort_pairs(pairs: &mut Vec<(u32, u32)>)
    ensures
        final(pairs)@.to_multiset() == old(pairs)@.to_multiset(),
        forall|i: int, j: int|
            0 <= i < j < final(pairs)@.len() ==> in_order(
                #[trigger] final(pairs)@[i],
                #[trigger] final(pairs)@[j],
            ),
{
    pairs.sort_unstable();
}

/// The numbers of the up to `limit` points that lie closest to the edge, from the edge inwards;
/// `dists` are the distances from it.
pub fn outline_first(dists: &Vec<Single>, limit: usize) -> (r: Vec<u32>)
    requires
        dists@.len() <= u32::MAX,
    ensures
        r@.len() == if dists@.len() <= limit {
            dists@.len() as int
        } else {
            limit as int
        },
        forall|a: int| 0 <= a < r@.len() ==> (#[trigger] r@[a]) < dists@.len(),
        r@.no_duplicates(),
        forall|a: int, b: int|
            0 <= a < b < r@.len() ==> !dists@[#[trigger] r@[b] as int].less(
                dists@[#[trigger] r@[a] as int],
            ),
        forall|a: int, i: int|
            0 <= a < r@.len() && 0 <= i < dists@.len() && !r@.contains(i as u32)
                ==> !(#[trigger] dists@[i]).less(dists@[#[trigger] r@[a] as int]),
{
    let mut pairs: Vec<(u32, u32)> = Vec::new();
    let mut i: usize = 0;
    while i < dists.len()
        invariant
            i <= dists@.len(),
            dists@.len() <= u32::MAX,
            pairs@.len() == i,
            forall|k: int|
                0 <= k < i ==> #[trigger] pairs@[k] == (ascending(dists@[k]), k as u32),
        decreases dists@.len() - i,
    {
        let d: Single = dists[i];
        let key: u32 = if d.bits >= SIGN_BIT {
            u32::MAX - d.bits
        } else {
            d.bits + SIGN_BIT
        };
        pairs.push((key, i as u32));
        i += 1;
    }
    let ghost given = pairs@;
    sort_pairs(&mut pairs);
    let ghost sorted = pairs@;
    proof {
        lemma_sorted_pairs(given, sorted);
    }
    let count: usize = if dists.len() <= limit {
        dists.len()
    } else {
        limit
    };
    let mut r: Vec<u32> = Vec::new();
    let mut k: usize = 0;
    while k < count
        invariant
            k <= count <= pairs@.len(),
            r@.len() == k,
            forall|a: int| 0 <= a < k ==> #[trigger] r@[a] == pairs@[a].1,
        decreases count - k,
    {
        r.push(pairs[k].1);
        k += 1;
    }
    proof {
        assert forall|a: int| 0 <= a < sorted.len() implies (#[trigger] sorted[a]).1 < dists@.len()
            && sorted[a].0 == ascending(dists@[sorted[a].1 as int]) by {
            assert(given.contains(sorted[a]));
        }
        assert forall|a: int, b: int| 0 <= a < r@.len() && 0 <= b < r@.len() && a != b implies r@[a]
            != r@[b] by {
            assert(sorted[a] != sorted[b]);
        }
        assert forall|a: int, b: int|
            0 <= a < b < r@.len() implies !dists@[#[trigger] r@[b] as int].less(
            dists@[#[trigger] r@[a] as int],
        ) by {
            assert(in_order(sorted[a], sorted[b]));
        }
        assert forall|a: int, i: int|
            0 <= a < r@.len() && 0 <= i < dists@.len() && !r@.contains(i as u32) implies !(
        #[trigger] dists@[i]).less(dists@[#[trigger] r@[a] as int]) by {
            assert(sorted.contains(given[i]));
            let b = choose|b: int| 0 <= b < sorted.len() && sorted[b] == given[i];
            if b < r@.len() {
                assert(r@[b] == i as u32);
            }
            assert(in_order(sorted[a], sorted[b]));
        }
    }
    r
}

proof fn lemma_sorted_pairs(given: Seq<(u32, u32)>, sorted: Seq<(u32, u32)>)
    requires
        sorted.to_multiset() == given.to_multiset(),
        given.len() <= u32::MAX,
        forall|k: int| 0 <= k < given.len() ==> (#[trigger] given[k]).1 == k,
    ensures
        sorted.len() == given.len(),
        sorted.no_duplicates(),
        forall|x: (u32, u32)| sorted.contains(x) <==> given.contains(x),
        forall|k: int| 0 <= k < sorted.len() ==> given.contains(#[trigger] sorted[k]),
        forall|k: int| 0 <= k < given.len() ==> sorted.contains(#[trigger] given[k]),
{
    broadcast use vstd::seq_lib::group_to_multiset_ensures;

    assert(given.no_duplicates());
    given.lemma_multiset_has_no_duplicates();
    assert(sorted.to_multiset().len() == sorted.len());
    assert(given.to_multiset().len() == given.len());
    sorted.lemma_multiset_has_no_duplicates_conv();
    assert forall|x: (u32, u32)| sorted.contains(x) <==> given.contains(x) by {
        assert(sorted.contains(x) <==> sorted.to_multiset().count(x) > 0);
        assert(given.contains(x) <==> given.to_multiset().count(x) > 0);
    }
}

/// A preview draws every particle up to ten thousand, every third up to fifty thousand, and every
/// eighth beyond.
pub proof fn law_large_previews_are_thinned(count: usize, r: usize)
    requires
        call_ensures(preview_stride, (count,), r),
    ensures
        count <= 10_000 ==> r == 1,
        10_000 < count <= 50_000 ==> r == 3,
        count > 50_000 ==> r == 8,
{
}

/// The outline takes as many points as there are and as are asked for, each once, from the edge
/// inwards, and leaves out none that is nearer to the edge than one it takes.
pub proof fn law_outline_takes_the_nearest(
    dists: Vec<Single>,
    limit: usize,
    r: Vec<u32>,
    a: int,
    b: int,
    i: u32,
)
    requires
        dists@.len() <= u32::MAX,
        call_ensures(outline_first, (&dists, limit), r),
    ensures
        r@.len() <= limit,
        r@.len() <= dists@.len(),
        r@.len() == limit || r@.len() == dists@.len(),
        0 <= a < r@.len() ==> r@[a] < dists@.len(),
        0 <= a < b < r@.len() ==> r@[a] != r@[b] && !dists@[r@[b] as int].less(
            dists@[r@[a] as int],
        ),
        0 <= a < r@.len() && i < dists@.len() && (forall|k: int|
            0 <= k < r@.len() ==> #[trigger] r@[k] != i) ==> !dists@[i as int].less(
            dists@[r@[a] as int],
        ),
{
    let _ = r@[a];
    let _ = r@[b];
    let _ = dists@[i as int];
}

} // verus!
