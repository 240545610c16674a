//! Identifier allocation for a collection.
//!
//! Each collection assigns the next identifier as `max(existing ids) + 1`,
//! where the maximum of an empty collection counts as 0.  Deleting the
//! highest-numbered record lets its numeric value be reused by a later
//! allocation; identifiers of live records are nevertheless always unique,
//! because a fresh identifier exceeds every identifier currently present.

use vstd::prelude::*;

verus! {

/// The largest identifier in `ids`, or 0 when there are none.
pub open spec fn seq_max(ids: Seq<i32>) -> int
    decreases ids.len(),
{
    if ids.len() == 0 {
        0
    } else if ids.len() == 1 {
        ids.last() as int
    } else {
        let m = seq_max(ids.drop_last());
        if ids.last() > m {
            ids.last() as int
        } else {
            m
        }
    }
}

/// The identifier the allocator hands out next: `max(existing ids, default 0) + 1`.
pub open spec fn next_id_spec(ids: Seq<i32>) -> int {
    seq_max(ids) + 1
}

/// No identifier occurs twice.
pub open spec fn unique_ids(ids: Seq<i32>) -> bool {
    forall|i: int, j: int| 0 <= i < j < ids.len() ==> ids[i] != ids[j]
}

/// The collection maximum dominates every element.
pub proof fn lemma_seq_max_ge(ids: Seq<i32>, i: int)
    requires
        0 <= i < ids.len(),
    ensures
        ids[i] <= seq_max(ids),
    decreases ids.len(),
{
    if i < ids.len() - 1 {
        lemma_seq_max_ge(ids.drop_last(), i);
    }
}

/// A freshly allocated identifier differs from every identifier already
/// present, so allocation preserves uniqueness of live identifiers.
pub proof fn lemma_next_id_fresh(ids: Seq<i32>)
    ensures
        forall|i: int| 0 <= i < ids.len() ==> ids[i] < next_id_spec(ids),
{
    assert forall|i: int| 0 <= i < ids.len() implies ids[i] < next_id_spec(ids) by {
        lemma_seq_max_ge(ids, i);
    }
}

/// The largest identifier in `ids`, or 0 when there are none.
pub fn seq_max_exec(ids: &Vec<i32>) -> (m: i32)
    ensures
        m as int == seq_max(ids@),
{
    if ids.len() == 0 {
        return 0;
    }
    let mut m: i32 = ids[0];
    let mut i: usize = 1;
    proof {
        assert(ids@.take(1).len() == 1);
        assert(ids@.take(1).last() == ids@[0]);
    }
    while i < ids.len()
        invariant
            1 <= i <= ids@.len(),
            m as int == seq_max(ids@.take(i as int)),
        decreases ids@.len() - i,
    {
        proof {
            assert(ids@.take(i + 1).drop_last() =~= ids@.take(i as int));
            assert(ids@.take(i + 1).last() == ids@[i as int]);
        }
        if ids[i] > m {
            m = ids[i];
        }
        i += 1;
    }
    proof {
        assert(ids@.take(ids@.len() as int) =~= ids@);
    }
    m
}

} // verus!
