//! Counting acknowledgements: descending sequences of match indices, and the
//! value that a given number of them reach.

use vstd::prelude::*;

verus! {

/// How many elements of `values` are at least `bound`.
pub open spec fn count_at_least(values: Seq<u64>, bound: nat) -> nat
    decreases values.len(),
{
    if values.len() == 0 {
        0
    } else {
        count_at_least(values.drop_last(), bound) + if values.last() >= bound {
            1nat
        } else {
            0nat
        }
    }
}

/// Whether `values` never rise.
pub open spec fn descending(values: Seq<u64>) -> bool {
    forall|i: int, j: int| 0 <= i <= j < values.len() ==> values[i] >= values[j]
}

/// Inserting an element counts it, wherever it goes.
pub proof fn lemma_count_insert(values: Seq<u64>, position: int, value: u64, bound: nat)
    requires
        0 <= position <= values.len(),
    ensures
        count_at_least(values.insert(position, value), bound) == count_at_least(values, bound)
            + if value >= bound {
            1nat
        } else {
            0nat
        },
    decreases values.len(),
{
    let inserted = values.insert(position, value);
    if position == values.len() {
        assert(inserted.drop_last() =~= values);
    } else {
        assert(inserted.drop_last() =~= values.drop_last().insert(position, value));
        lemma_count_insert(values.drop_last(), position, value, bound);
    }
}

/// If the first `reached` elements are at least `bound`, so many are counted.
pub proof fn lemma_count_lower(values: Seq<u64>, reached: int, bound: nat)
    requires
        0 <= reached <= values.len(),
        forall|i: int| 0 <= i < reached ==> values[i] >= bound,
    ensures
        count_at_least(values, bound) >= reached,
    decreases values.len(),
{
    if values.len() > 0 {
        if reached == values.len() {
            lemma_count_lower(values.drop_last(), reached - 1, bound);
        } else {
            lemma_count_lower(values.drop_last(), reached, bound);
        }
    }
}

/// If all elements from position `reached` on are below `bound`, no more than `reached`
/// are counted.
pub proof fn lemma_count_upper(values: Seq<u64>, reached: int, bound: nat)
    requires
        0 <= reached <= values.len(),
        forall|i: int| reached <= i < values.len() ==> values[i] < bound,
    ensures
        count_at_least(values, bound) <= reached,
    decreases values.len(),
{
    if values.len() > 0 {
        if reached == values.len() {
            lemma_count_upper(values.drop_last(), reached - 1, bound);
        } else {
            lemma_count_upper(values.drop_last(), reached, bound);
        }
    }
}

/// Among descending values, the one at position `quorum - 1` is the highest bound that
/// `quorum` of them reach.
pub proof fn lemma_quorum_position(values: Seq<u64>, quorum: int, bound: nat)
    requires
        descending(values),
        1 <= quorum <= values.len(),
    ensures
        count_at_least(values, bound) >= quorum <==> bound <= values[quorum - 1],
{
    if bound <= values[quorum - 1] {
        lemma_count_lower(values, quorum, bound);
    } else {
        lemma_count_upper(values, quorum - 1, bound);
    }
}

/// Inserts `value` into a descending vector where it belongs.
pub fn insert_descending(values: &mut Vec<u64>, value: u64)
    requires
        descending(old(values)@),
    ensures
        descending(final(values)@),
        final(values)@.len() == old(values)@.len() + 1,
        forall|bound: nat| #[trigger]
            count_at_least(final(values)@, bound) == count_at_least(old(values)@, bound)
                + if value >= bound {
                1nat
            } else {
                0nat
            },
{
    let mut position: usize = 0;
    while position < values.len() && values[position] >= value
        invariant
            position <= values.len(),
            forall|i: int| 0 <= i < position ==> values[i] >= value,
        decreases values.len() - position,
    {
        position = position + 1;
    }
    proof {
        assert forall|bound: nat| #[trigger]
            count_at_least(values@.insert(position as int, value), bound) == count_at_least(
                values@,
                bound,
            ) + if value >= bound {
                1nat
            } else {
                0nat
            } by {
            lemma_count_insert(values@, position as int, value, bound);
        }
    }
    values.insert(position, value);
}

} // verus!
