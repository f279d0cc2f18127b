use vstd::prelude::*;

use crate::board::{lemma_index_in_bounds, lemma_index_injective, BoardModel};
use crate::geometry::{are_adjacent, Cell};

verus! {

/// The state after a sequence of clicks, taken in order.
pub open spec fn after_clicks(m: BoardModel, hits: Seq<Option<Cell>>) -> BoardModel
    decreases hits.len(),
{
    if hits.len() == 0 {
        m
    } else {
        after_clicks(m.after_click(hits[0]), hits.drop_first())
    }
}

/// At most one tile is selected.
pub open spec fn at_most_one_selected(m: BoardModel) -> bool {
    forall|i: int, j: int|
        0 <= i < m.len() && 0 <= j < m.len() && #[trigger] m.selected[i] && #[trigger] m.selected[j]
            ==> i == j
}

/// A well-formed board has at most one tile selected.
pub proof fn lemma_wf_at_most_one_selected(m: BoardModel)
    requires
        m.wf(),
    ensures
        at_most_one_selected(m),
{
}

/// A click keeps the board well formed, and so settled.
pub proof fn lemma_click_keeps_wf(m: BoardModel, hit: Option<Cell>)
    requires
        m.wf(),
    ensures
        m.after_click(hit).wf(),
{
    if let Some(c) = hit {
        if m.contains(c) && !m.is_selected(c) {
            lemma_index_in_bounds(m, c);
            match m.pending {
                None => {
                    let n = m.with_pending(c);
                    assert forall|i: int| 0 <= i < n.len() implies #[trigger] n.selected[i] == (i
                        == m.index(c)) by {}
                },
                Some(p) => {
                    lemma_index_in_bounds(m, p);
                    let s = m.after_swap(p, c);
                    assert(s.cleared().wf());
                },
            }
        } else {
            assert(m.cleared().wf());
        }
    } else {
        assert(m.cleared().wf());
    }
}

/// Whatever clicks a player makes, on the grid or off it, at most one tile
/// is selected once each has been handled.
pub proof fn lemma_clicks_keep_one_selected(m: BoardModel, hits: Seq<Option<Cell>>)
    requires
        m.wf(),
    ensures
        after_clicks(m, hits).wf(),
        at_most_one_selected(after_clicks(m, hits)),
    decreases hits.len(),
{
    if hits.len() == 0 {
    } else {
        lemma_click_keeps_wf(m, hits[0]);
        lemma_clicks_keep_one_selected(m.after_click(hits[0]), hits.drop_first());
    }
    lemma_wf_at_most_one_selected(after_clicks(m, hits));
}

/// A click on the selected tile deselects it and forgets the pending
/// selection, leaving the colors as they were.
pub proof fn lemma_click_on_selected_cancels(m: BoardModel, c: Cell)
    requires
        m.wf(),
        m.contains(c),
        m.is_selected(c),
    ensures
        m.after_click(Some(c)).pending is None,
        !m.after_click(Some(c)).is_selected(c),
        m.after_click(Some(c)).colors == m.colors,
{
    lemma_index_in_bounds(m, c);
}

/// From a board with nothing pending, two clicks on the same tile select it
/// and then cancel the selection: nothing is pending, the tile is not
/// selected and no color has moved.
pub proof fn lemma_double_click_cancels(m: BoardModel, c: Cell)
    requires
        m.wf(),
        m.contains(c),
        m.pending is None,
    ensures
        m.after_click(Some(c)).after_click(Some(c)).pending is None,
        !m.after_click(Some(c)).after_click(Some(c)).is_selected(c),
        m.after_click(Some(c)).after_click(Some(c)).colors == m.colors,
{
    lemma_index_in_bounds(m, c);
    lemma_click_keeps_wf(m, Some(c));
    let once = m.after_click(Some(c));
    assert(once.is_selected(c));
    lemma_click_on_selected_cancels(once, c);
}

/// A click beside the grid deselects every tile and forgets the pending
/// selection, leaving the colors as they were.
pub proof fn lemma_miss_clears_selection(m: BoardModel)
    requires
        m.wf(),
    ensures
        m.after_click(None).pending is None,
        forall|i: int| 0 <= i < m.len() ==> !#[trigger] m.after_click(None).selected[i],
        m.after_click(None).colors == m.colors,
{
}

/// A swap attempt is its own inverse: making it twice restores the board.
pub proof fn lemma_swap_twice_restores(m: BoardModel, p: Cell, q: Cell)
    requires
        m.wf(),
        m.contains(p),
        m.contains(q),
    ensures
        m.after_swap(p, q).after_swap(p, q) == m,
{
    if are_adjacent(p, q) {
        lemma_index_in_bounds(m, p);
        lemma_index_in_bounds(m, q);
        lemma_index_injective(m, p, q);
        let once = m.after_swap(p, q);
        assert(once.after_swap(p, q).colors =~= m.colors);
    }
}

} // verus!
