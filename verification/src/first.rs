//! The first place at which a condition holds.

use vstd::prelude::*;

verus! {

/// The first index from `from` up to `len` at which `holds` is true.
pub open spec fn first_index(len: int, holds: spec_fn(int) -> bool, from: int) -> Option<int>
    decreases len - from,
{
    if from >= len {
        None
    } else if holds(from) {
        Some(from)
    } else {
        first_index(len, holds, from + 1)
    }
}

/// [`first_index`] finds an index at which the condition holds and before which
/// it does not, and finds none only where it holds nowhere.
pub proof fn lemma_first_index(len: int, holds: spec_fn(int) -> bool, from: int)
    ensures
        match first_index(len, holds, from) {
            Some(i) => from <= i < len && holds(i) && forall|j: int|
                from <= j < i ==> !#[trigger] holds(j),
            None => forall|j: int| from <= j < len ==> !#[trigger] holds(j),
        },
    decreases len - from,
{
    if from < len && !holds(from) {
        lemma_first_index(len, holds, from + 1);
    }
}

/// An index at which the condition holds, and before which it does not, is the
/// one that [`first_index`] finds.
pub proof fn lemma_first_index_is(len: int, holds: spec_fn(int) -> bool, from: int, i: int)
    requires
        from <= i < len,
        holds(i),
        forall|j: int| from <= j < i ==> !#[trigger] holds(j),
    ensures
        first_index(len, holds, from) == Some(i),
    decreases len - from,
{
    if from < i {
        lemma_first_index_is(len, holds, from + 1, i);
    }
}

/// Where the condition holds nowhere, [`first_index`] finds nothing.
pub proof fn lemma_first_index_none(len: int, holds: spec_fn(int) -> bool, from: int)
    requires
        forall|j: int| from <= j < len ==> !#[trigger] holds(j),
    ensures
        first_index(len, holds, from) is None,
    decreases len - from,
{
    if from < len {
        lemma_first_index_none(len, holds, from + 1);
    }
}

/// Two conditions that agree from `from` up to `len` have the same first index.
pub proof fn lemma_first_index_agrees(
    len: int,
    holds: spec_fn(int) -> bool,
    other: spec_fn(int) -> bool,
    from: int,
)
    requires
        forall|j: int| from <= j < len ==> #[trigger] holds(j) == other(j),
    ensures
        first_index(len, holds, from) == first_index(len, other, from),
    decreases len - from,
{
    if from < len {
        assert(holds(from) == other(from));
        lemma_first_index_agrees(len, holds, other, from + 1);
    }
}

} // verus!
