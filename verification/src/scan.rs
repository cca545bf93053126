//! Searching a text or a list from a place onward for the first place with
//! a property.

use vstd::prelude::*;

verus! {

/// The first place from `from` up to, not including, `end` that has the
/// property `p`, or `end` when none has.
pub open spec fn first_at(p: spec_fn(int) -> bool, from: int, end: int) -> int
    decreases end - from,
{
    if from >= end {
        end
    } else if p(from) {
        from
    } else {
        first_at(p, from + 1, end)
    }
}

/// The first place with the property is `at` when no place between `from`
/// and `at` has it and `at` has it, or is the end.
pub proof fn lemma_first_at(p: spec_fn(int) -> bool, from: int, end: int, at: int)
    requires
        from <= at <= end,
        forall|j: int| from <= j < at ==> !#[trigger] p(j),
        at < end ==> p(at),
    ensures
        first_at(p, from, end) == at,
    decreases at - from,
{
    if from < at {
        lemma_first_at(p, from + 1, end, at);
    }
}

/// The first place with the property lies between `from` and `end`, no
/// place before it has the property, and it has it unless it is the end.
pub proof fn lemma_first_at_is_first(p: spec_fn(int) -> bool, from: int, end: int)
    requires
        from <= end,
    ensures
        from <= first_at(p, from, end) <= end,
        forall|j: int| from <= j < first_at(p, from, end) ==> !#[trigger] p(j),
        first_at(p, from, end) < end ==> p(first_at(p, from, end)),
    decreases end - from,
{
    if from < end && !p(from) {
        lemma_first_at_is_first(p, from + 1, end);
    }
}

} // verus!
