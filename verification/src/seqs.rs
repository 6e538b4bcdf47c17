//! The first occurrence of a value in a sequence.

use vstd::prelude::*;

verus! {

/// The index of the first occurrence of `wanted` in `items`, or the length of `items`
/// if it does not occur.
pub open spec fn position<T>(items: Seq<T>, wanted: T) -> int
    decreases items.len(),
{
    if items.len() == 0 || items[0] == wanted {
        0
    } else {
        1 + position(items.drop_first(), wanted)
    }
}

/// A value that does not occur before `upto` has its first occurrence where the rest
/// of the sequence has it.
pub proof fn lemma_position_skip<T>(items: Seq<T>, wanted: T, upto: int)
    requires
        0 <= upto <= items.len(),
        forall|j: int| 0 <= j < upto ==> items[j] != wanted,
    ensures
        position(items, wanted) == upto + position(
            items.subrange(upto, items.len() as int),
            wanted,
        ),
    decreases upto,
{
    if upto == 0 {
        assert(items.subrange(0, items.len() as int) =~= items);
    } else {
        let rest = items.drop_first();
        assert forall|j: int| 0 <= j < upto - 1 implies rest[j] != wanted by {
            assert(rest[j] == items[j + 1]);
        }
        lemma_position_skip(rest, wanted, upto - 1);
        assert(rest.subrange(upto - 1, rest.len() as int) =~= items.subrange(
            upto,
            items.len() as int,
        ));
    }
}

/// The first occurrence lies within the sequence or at its end, nothing before it
/// is the value, and what stands there is the value.
pub proof fn lemma_position_is_first<T>(items: Seq<T>, wanted: T)
    ensures
        0 <= position(items, wanted) <= items.len(),
        forall|j: int| 0 <= j < position(items, wanted) ==> items[j] != wanted,
        position(items, wanted) < items.len() ==> items[position(items, wanted)] == wanted,
    decreases items.len(),
{
    if items.len() != 0 && items[0] != wanted {
        let rest = items.drop_first();
        lemma_position_is_first(rest, wanted);
        assert forall|j: int| 0 <= j < position(items, wanted) implies items[j] != wanted by {
            if j > 0 {
                assert(rest[j - 1] == items[j]);
            }
        }
    }
}

} // verus!
