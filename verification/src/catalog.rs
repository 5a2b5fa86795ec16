//! Lists of saved files, the most recent first.
use vstd::prelude::*;
use vstd::set_lib::{lemma_int_range, lemma_subset_equality, set_int_range};

verus! {

/// From position `i` on, the text `a` comes before the text `b`: byte by byte, and a text before
/// its own continuations.
pub open spec fn precedes_from(a: Seq<u8>, b: Seq<u8>, i: int) -> bool
    decreases b.len() - i,
{
    if i >= b.len() {
        false
    } else if i >= a.len() {
        true
    } else if a[i] != b[i] {
        a[i] < b[i]
    } else {
        precedes_from(a, b, i + 1)
    }
}

/// The text `a` comes before the text `b`.
pub open spec fn precedes(a: Seq<u8>, b: Seq<u8>) -> bool {
    precedes_from(a, b, 0)
}

proof fn lemma_precedes_is_asymmetric(a: Seq<u8>, b: Seq<u8>, i: int)
    requires
        precedes_from(a, b, i),
    ensures
        !precedes_from(b, a, i),
    decreases b.len() - i,
{
    if i < a.len() && a[i] == b[i] {
        lemma_precedes_is_asymmetric(a, b, i + 1);
    }
}

proof fn lemma_precedes_is_transitive(a: Seq<u8>, b: Seq<u8>, c: Seq<u8>, i: int)
    requires
        precedes_from(a, b, i),
        precedes_from(b, c, i),
    ensures
        precedes_from(a, c, i),
    decreases c.len() - i,
{
    if i < a.len() && a[i] == b[i] && b[i] == c[i] {
        lemma_precedes_is_transitive(a, b, c, i + 1);
    }
}

/// Of two different texts, one comes before the other and not the other way round.
pub proof fn law_texts_are_ordered(a: Seq<u8>, b: Seq<u8>)
    ensures
        !(precedes(a, b) && precedes(b, a)),
        a != b ==> precedes(a, b) || precedes(b, a),
{
    if precedes(a, b) {
        lemma_precedes_is_asymmetric(a, b, 0);
    }
    if !precedes(a, b) && !precedes(b, a) {
        lemma_neither_means_equal(a, b, 0);
        assert(a =~= b);
    }
}

proof fn lemma_neither_means_equal(a: Seq<u8>, b: Seq<u8>, i: int)
    requires
        0 <= i,
        !precedes_from(a, b, i),
        !precedes_from(b, a, i),
        i <= a.len(),
        i <= b.len(),
    ensures
        a.len() == b.len(),
        forall|k: int| i <= k < a.len() ==> a[k] == b[k],
    decreases b.len() - i,
{
    if i < a.len() && i < b.len() {
        lemma_neither_means_equal(a, b, i + 1);
    }
}

/// The entries of `order` are different numbers below `n`.
pub open spec fn numbers_below(order: Seq<usize>, n: int) -> bool {
    &&& order.no_duplicates()
    &&& forall|a: int| 0 <= a < order.len() ==> (#[trigger] order[a]) < n
}

/// The later text comes first; of equal ones, the one with the lower number.
pub open spec fn latest_first(stamps: Seq<Vec<u8>>, order: Seq<usize>) -> bool {
    forall|a: int, b: int|
        0 <= a < b < order.len() ==> {
            let x = stamps[#[trigger] order[a] as int]@;
            let y = stamps[#[trigger] order[b] as int]@;
            precedes(y, x) || !precedes(x, y) && order[a] < order[b]
        }
}

/// Whether the text `a` comes before the text `b`.
fn comes_before(a: &Vec<u8>, b: &Vec<u8>) -> (r: bool)
    ensures
        r == precedes(a@, b@),
{
    let mut i: usize = 0;
    while i < b.len()
        invariant
            i <= b@.len(),
            i <= a@.len(),
            precedes(a@, b@) == precedes_from(a@, b@, i as int),
        decreases b@.len() - i,
    {
        if i >= a.len() {
            return true;
        }
        if a[i] != b[i] {
            return a[i] < b[i];
        }
        i += 1;
    }
    false
}

/// The order in which files are listed, given the texts of their times: the latest text first,
/// and equal ones as they come.
pub fn newest_first(stamps: &Vec<Vec<u8>>) -> (r: Vec<usize>)
    ensures
        r@.len() == stamps@.len(),
        numbers_below(r@, stamps@.len() as int),
        latest_first(stamps@, r@),
{
    let mut order: Vec<usize> = Vec::new();
    let mut i: usize = 0;
    while i < stamps.len()
        invariant
            i <= stamps@.len(),
            order@.len() == i,
            numbers_below(order@, i as int),
            latest_first(stamps@, order@),
        decreases stamps@.len() - i,
    {
        let mut at: usize = 0;
        while at < order.len() && !comes_before(&stamps[order[at]], &stamps[i])
            invariant
                at <= order@.len(),
                i < stamps@.len(),
                order@.len() == i,
                numbers_below(order@, i as int),
                forall|a: int|
                    0 <= a < at ==> !precedes(
                        stamps@[#[trigger] order@[a] as int]@,
                        stamps@[i as int]@,
                    ),
            decreases order@.len() - at,
        {
            at += 1;
        }
        let ghost before = order@;
        order.insert(at, i);
        proof {
            lemma_inserted(stamps@, before, at as int, i);
            assert(order@ =~= before.insert(at as int, i));
        }
        i += 1;
    }
    order
}

proof fn lemma_inserted(stamps: Seq<Vec<u8>>, order: Seq<usize>, at: int, i: usize)
    requires
        numbers_below(order, i as int),
        latest_first(stamps, order),
        0 <= at <= order.len(),
        i < stamps.len(),
        forall|a: int|
            0 <= a < at ==> !precedes(stamps[#[trigger] order[a] as int]@, stamps[i as int]@),
        at < order.len() ==> precedes(stamps[order[at] as int]@, stamps[i as int]@),
    ensures
        numbers_below(order.insert(at, i), i + 1),
        latest_first(stamps, order.insert(at, i)),
{
    let all = order.insert(at, i);
    assert forall|a: int| 0 <= a < all.len() implies all[a] == if a < at {
        order[a]
    } else if a == at {
        i
    } else {
        order[a - 1]
    } by {}
    assert forall|a: int, b: int| 0 <= a < all.len() && 0 <= b < all.len() && a != b implies all[a]
        != all[b] by {
        let oa = if a < at {
            a
        } else {
            a - 1
        };
        let ob = if b < at {
            b
        } else {
            b - 1
        };
        if a != at && b != at {
            assert(order[oa] != order[ob]);
        } else if a == at {
            assert(order[ob] < i);
        } else {
            assert(order[oa] < i);
        }
    }
    assert forall|a: int| 0 <= a < all.len() implies (#[trigger] all[a]) < i + 1 by {
        if a < at {
            assert(order[a] < i);
        } else if a > at {
            assert(order[a - 1] < i);
        }
    }
    assert forall|a: int, b: int| 0 <= a < b < all.len() implies ({
        let x = stamps[#[trigger] all[a] as int]@;
        let y = stamps[#[trigger] all[b] as int]@;
        precedes(y, x) || !precedes(x, y) && all[a] < all[b]
    }) by {
        let s = stamps[i as int]@;
        if b == at {
            let x = stamps[order[a] as int]@;
            assert(order[a] < i);
            assert(!precedes(x, s));
        } else if a == at {
            let top = stamps[order[at] as int]@;
            let y = stamps[order[b - 1] as int]@;
            if b - 1 > at {
                assert(precedes(y, top) || !precedes(top, y) && order[at] < order[b - 1]);
                if precedes(y, top) {
                    lemma_precedes_is_transitive(y, top, s, 0);
                } else {
                    lemma_neither_is_equal_or_less(top, y, s);
                }
            }
        } else {
            let oa = if a < at {
                a
            } else {
                a - 1
            };
            let ob = if b < at {
                b
            } else {
                b - 1
            };
            let _ = order[oa];
            let _ = order[ob];
            assert(oa < ob);
        }
    }
}

/// A text that is not after `top`, where `top` comes before `s`, comes before `s` too.
proof fn lemma_neither_is_equal_or_less(top: Seq<u8>, y: Seq<u8>, s: Seq<u8>)
    requires
        precedes(top, s),
        !precedes(top, y),
        !precedes(y, top),
    ensures
        precedes(y, s),
{
    law_texts_are_ordered(top, y);
    assert(top == y);
}

/// Where one text comes before another, they are equal up to some byte, and there the first ends or
/// has the smaller one.
proof fn lemma_precedes_means(a: Seq<u8>, b: Seq<u8>, i: int) -> (k: int)
    requires
        0 <= i <= a.len(),
        precedes_from(a, b, i),
    ensures
        i <= k <= a.len(),
        k < b.len(),
        forall|j: int| i <= j < k ==> a[j] == b[j],
        k < a.len() ==> a[k] < b[k],
    decreases b.len() - i,
{
    if i < a.len() && a[i] == b[i] {
        lemma_precedes_means(a, b, i + 1)
    } else {
        i
    }
}

/// Every file is listed once. Of two, the one with the later text comes first: at the first byte in
/// which they differ, `k`, its text goes on or has the larger byte. Equal ones keep their order.
pub proof fn law_files_are_listed_newest_first(
    stamps: Vec<Vec<u8>>,
    r: Vec<usize>,
    a: int,
    b: int,
) -> (k: int)
    requires
        call_ensures(newest_first, (&stamps,), r),
        0 <= a < b < r@.len(),
    ensures
        r@.len() == stamps@.len(),
        r@[a] < stamps@.len(),
        r@[b] < stamps@.len(),
        r@[a] != r@[b],
        ({
            let x = stamps@[r@[a] as int]@;
            let y = stamps@[r@[b] as int]@;
            ||| x == y && r@[a] < r@[b]
            ||| {
                &&& 0 <= k < x.len()
                &&& k <= y.len()
                &&& (forall|j: int| 0 <= j < k ==> #[trigger] x[j] == y[j])
                &&& k < y.len() ==> y[k] < x[k]
            }
        }),
{
    let x = stamps@[r@[a] as int]@;
    let y = stamps@[r@[b] as int]@;
    law_texts_are_ordered(x, y);
    if precedes(y, x) {
        lemma_precedes_means(y, x, 0)
    } else {
        0
    }
}

/// No file is missing from the list.
pub proof fn law_every_file_is_listed(stamps: Vec<Vec<u8>>, r: Vec<usize>, i: usize)
    requires
        call_ensures(newest_first, (&stamps,), r),
    ensures
        r@.len() == stamps@.len(),
        i < stamps@.len() ==> exists|a: int| 0 <= a < r@.len() && #[trigger] r@[a] == i,
{
    let n = stamps@.len() as int;
    let s = r@.map_values(|x: usize| x as int);
    assert forall|a: int, b: int| 0 <= a < s.len() && 0 <= b < s.len() && a != b implies s[a]
        != s[b] by {
        assert(r@[a] != r@[b]);
    }
    s.unique_seq_to_set();
    let all = set_int_range(0, n);
    lemma_int_range(0, n);
    assert(s.to_set().subset_of(all)) by {
        assert forall|v: int| s.to_set().contains(v) implies all.contains(v) by {
            let a = choose|a: int| 0 <= a < s.len() && s[a] == v;
            assert(r@[a] < n);
        }
    }
    lemma_subset_equality(s.to_set(), all);
    if i < n {
        assert(s.to_set().contains(i as int));
        let a = choose|a: int| 0 <= a < s.len() && s[a] == i;
        assert(r@[a] == i);
    }
}

} // verus!
