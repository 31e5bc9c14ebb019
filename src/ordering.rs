//! Stable insertion into an ordered list of positions, for lists that are
//! shown in an order other than the one they were stored in.

use vstd::prelude::*;

verus! {

/// Inserts `x` after the last position of `s` that `le` puts no later than it.
pub open spec fn insert_index(s: Seq<int>, x: int, le: spec_fn(int, int) -> bool) -> Seq<int>
    decreases s.len(),
{
    if s.len() == 0 {
        seq![x]
    } else if le(s.last(), x) {
        s.push(x)
    } else {
        insert_index(s.drop_last(), x, le).push(s.last())
    }
}

/// The positions of `s` ordered by `le`; positions that `le` puts alike keep
/// their relative order.
pub open spec fn sort_indices(s: Seq<int>, le: spec_fn(int, int) -> bool) -> Seq<int>
    decreases s.len(),
{
    if s.len() == 0 {
        s
    } else {
        insert_index(sort_indices(s.drop_last(), le), s.last(), le)
    }
}

pub open spec fn as_ints(v: Seq<usize>) -> Seq<int> {
    v.map_values(|i: usize| i as int)
}

/// Inserting at the first position `j` past which everything sorts after
/// `x` is what `insert_index` does.
pub proof fn lemma_insert_index_at(s: Seq<int>, x: int, le: spec_fn(int, int) -> bool, j: int)
    requires
        0 <= j <= s.len(),
        forall|k: int| j <= k < s.len() ==> !le(#[trigger] s[k], x),
        j == 0 || le(s[j - 1], x),
    ensures
        insert_index(s, x, le) == s.subrange(0, j) + seq![x] + s.subrange(j, s.len() as int),
    decreases s.len(),
{
    if s.len() == 0 {
        assert(s.subrange(0, j) + seq![x] + s.subrange(j, s.len() as int) =~= seq![x]);
    } else if j == s.len() {
        assert(s.last() == s[j - 1]);
        assert(s.subrange(0, j) + seq![x] + s.subrange(j, s.len() as int) =~= s.push(x));
    } else {
        let t = s.drop_last();
        assert(!le(s[s.len() - 1], x));
        assert forall|k: int| j <= k < t.len() implies !le(#[trigger] t[k], x) by {
            assert(t[k] == s[k]);
        }
        if j > 0 {
            assert(t[j - 1] == s[j - 1]);
        }
        lemma_insert_index_at(t, x, le, j);
        assert(t.subrange(0, j) + seq![x] + t.subrange(j, t.len() as int) + seq![s.last()]
            =~= s.subrange(0, j) + seq![x] + s.subrange(j, s.len() as int));
    }
}

/// After `v.insert(j, x)`, the positions read as the old ones with `x` at `j`.
pub proof fn lemma_as_ints_insert(old_v: Seq<usize>, v: Seq<usize>, j: int, x: usize)
    requires
        0 <= j <= old_v.len(),
        v == old_v.insert(j, x),
    ensures
        as_ints(v) == as_ints(old_v).subrange(0, j) + seq![x as int] + as_ints(old_v).subrange(
            j,
            old_v.len() as int,
        ),
{
    assert(as_ints(v) =~= as_ints(old_v).subrange(0, j) + seq![x as int] + as_ints(
        old_v,
    ).subrange(j, old_v.len() as int));
}

} // verus!
