//! Linear searches report the offsets at which something holds, each once
//! and in ascending order. This module says what such a report is.

use vstd::prelude::*;

verus! {

/// Whether `found` lists, in ascending order, exactly the offsets below `n`
/// at which `hit` holds.
pub open spec fn lists_hits(found: Seq<usize>, n: int, hit: spec_fn(int) -> bool) -> bool {
    &&& forall|i: int, j: int| 0 <= i < j < found.len() ==> found[i] < found[j]
    &&& forall|i: int| 0 <= i < found.len() ==> found[i] < n && hit(#[trigger] found[i] as int)
    &&& forall|a: usize|
        #![trigger found.contains(a)]
        #![trigger hit(a as int)]
        a < n && hit(a as int) ==> found.contains(a)
}

/// A list of the hits below `n` becomes one of the hits below `n + 1` by
/// appending `n` where `n` is a hit, and as it is where `n` is none.
pub proof fn lemma_lists_hits_step(found: Seq<usize>, n: int, hit: spec_fn(int) -> bool)
    requires
        0 <= n <= usize::MAX,
        lists_hits(found, n, hit),
    ensures
        hit(n) ==> lists_hits(found.push(n as usize), n + 1, hit),
        !hit(n) ==> lists_hits(found, n + 1, hit),
{
    if hit(n) {
        let next = found.push(n as usize);
        assert forall|a: usize| a < n + 1 && hit(a as int) implies #[trigger] next.contains(a) by {
            if a < n {
                let i = choose|i: int| 0 <= i < found.len() && found[i] == a;
                assert(next[i] == a);
            } else {
                assert(next[found.len() as int] == a);
            }
        }
    }
}

/// Where nothing below `n` is a hit, the list of the hits is empty.
pub proof fn lemma_lists_hits_none(found: Seq<usize>, n: int, hit: spec_fn(int) -> bool)
    requires
        lists_hits(found, n, hit),
        forall|a: int| 0 <= a < n ==> !#[trigger] hit(a),
    ensures
        found == Seq::<usize>::empty(),
{
    if found.len() > 0 {
        assert(hit(found[0] as int));
    }
    assert(found =~= Seq::<usize>::empty());
}

/// A list of the hits below `n`, taken back by one offset: where `n - 1`
/// is a hit it is the last entry, and what stands before it lists the
/// hits below `n - 1`; where it is none, the list itself does.
proof fn lemma_lists_hits_back(found: Seq<usize>, n: int, hit: spec_fn(int) -> bool)
    requires
        0 < n,
        lists_hits(found, n, hit),
    ensures
        n - 1 <= usize::MAX && hit(n - 1) ==> found.len() > 0 && found.last() == n - 1
            && lists_hits(found.drop_last(), n - 1, hit),
        !(n - 1 <= usize::MAX && hit(n - 1)) ==> lists_hits(found, n - 1, hit),
{
    let m = n - 1;
    if m <= usize::MAX && hit(m) {
        assert(found.contains(m as usize));
        let i = choose|i: int| 0 <= i < found.len() && found[i] == m as usize;
        if i < found.len() - 1 {
            assert(found[i] < found[i + 1]);
        }
        let rest = found.drop_last();
        assert forall|a: usize| a < m && hit(a as int) implies #[trigger] rest.contains(a) by {
            assert(found.contains(a));
            let j = choose|j: int| 0 <= j < found.len() && found[j] == a;
            assert(rest[j] == a);
        }
        assert forall|k: int| 0 <= k < rest.len() implies rest[k] < m && hit(
            #[trigger] rest[k] as int,
        ) by {
            assert(found[k] < found[found.len() - 1]);
        }
    } else {
        assert forall|k: int| 0 <= k < found.len() implies found[k] < m && hit(
            #[trigger] found[k] as int,
        ) by {
            assert(hit(found[k] as int));
        }
    }
}

/// The hits below `n` have one list only: a search that returns such a
/// list has no choice in what it returns.
pub proof fn lemma_lists_hits_unique(
    one: Seq<usize>,
    other: Seq<usize>,
    n: int,
    hit: spec_fn(int) -> bool,
)
    requires
        lists_hits(one, n, hit),
        lists_hits(other, n, hit),
    ensures
        one == other,
    decreases n,
{
    if n <= 0 {
        if one.len() > 0 {
            assert(one[0] < n);
        }
        if other.len() > 0 {
            assert(other[0] < n);
        }
        assert(one =~= other);
    } else {
        lemma_lists_hits_back(one, n, hit);
        lemma_lists_hits_back(other, n, hit);
        if n - 1 <= usize::MAX && hit(n - 1) {
            lemma_lists_hits_unique(one.drop_last(), other.drop_last(), n - 1, hit);
            assert(one =~= one.drop_last().push(one.last()));
            assert(other =~= other.drop_last().push(other.last()));
        } else {
            lemma_lists_hits_unique(one, other, n - 1, hit);
        }
    }
}

} // verus!
