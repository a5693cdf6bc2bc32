//! Reordering tags by drag and drop.

use vstd::prelude::*;

verus! {

/// Converts a visual gap index (the gap before row `gap` of the list shown
/// while dragging row `src_idx`) to the index the dragged tag must be
/// re-inserted at once it has been taken out of the list.
pub fn gap_to_new_index(gap: usize, src_idx: usize) -> (r: usize)
    ensures
        r == (if gap <= src_idx {
            gap
        } else {
            (gap - 1) as usize
        }),
{
    if gap <= src_idx {
        gap
    } else {
        gap - 1
    }
}

/// The list after dragging item `src` into gap `gap`: the items before the
/// gap (without the dragged one), the dragged item, then the items after the
/// gap (without the dragged one).
pub open spec fn dropped_at_gap<T>(s: Seq<T>, src: int, gap: int) -> Seq<T> {
    let rest = s.remove(src);
    let before = if gap <= src {
        gap
    } else {
        gap - 1
    };
    rest.take(before) + seq![s[src]] + rest.skip(before)
}

/// Taking the dragged tag out and re-inserting it at the converted index puts
/// it exactly in the gap it was dropped in: every other tag keeps its order,
/// the tags shown before the gap stay before it and those after stay after.
pub proof fn lemma_gap_move_places_item(s: Seq<u64>, src: int, gap: int)
    requires
        0 <= src < s.len(),
        0 <= gap <= s.len(),
    ensures
        ({
            let new_index = if gap <= src {
                gap
            } else {
                gap - 1
            };
            &&& 0 <= new_index < s.len()
            &&& s.remove(src).insert(new_index, s[src]) == dropped_at_gap(s, src, gap)
            &&& s.remove(src).insert(new_index, s[src])[new_index] == s[src]
            &&& forall|i: int|
                0 <= i < gap && i != src ==> #[trigger] s[i] == s.remove(src).insert(
                    new_index,
                    s[src],
                )[if i < src {
                    i
                } else {
                    i - 1
                }]
        }),
{
    let new_index = if gap <= src {
        gap
    } else {
        gap - 1
    };
    let rest = s.remove(src);
    let moved = rest.insert(new_index, s[src]);
    assert(moved =~= rest.take(new_index) + seq![s[src]] + rest.skip(new_index));
}

} // verus!
