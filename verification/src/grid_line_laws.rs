//! What a grid keeps when only the number of its lines changes.
use crate::grid::{grid_wf, min_int, GridView, MIN_LINES};
use crate::grid_grow::resized;
use vstd::prelude::*;

verus! {

/// How many rows lie below the row of the cursor.
pub open spec fn below_cursor(g: GridView) -> int {
    g.lines - 1 - g.cursor.row
}

/// Counted from the row of the cursor, every row of text stands where it stood:
/// what is new lies below all that was there and is blank, and rows are lost only
/// below the cursor or where the history is full.
pub proof fn law_the_cursor_stays_on_its_text(g: GridView, reflow: bool, lines: int)
    requires
        grid_wf(g),
        MIN_LINES <= lines <= usize::MAX,
    ensures
        ({
            let after = resized(g, reflow, lines, g.columns);
            let here = below_cursor(after);
            let there = below_cursor(g);
            &&& after.lines == lines
            &&& 0 <= here < after.rows.len()
            &&& after.rows[here] == g.rows[there]
            &&& after.cursor.col == g.cursor.col
            &&& after.cursor.should_wrap == g.cursor.should_wrap
            &&& forall|j: int|
                0 <= j < after.rows.len() ==> {
                    let i = j - here + there;
                    &&& i < g.rows.len()
                    &&& i >= 0 ==> #[trigger] after.rows[j] == g.rows[i]
                    &&& i < 0 ==> (forall|c: int|
                        0 <= c < g.columns ==> (#[trigger] after.rows[j][c]).content == 0)
                }
            &&& after.rows.len() - here == g.rows.len() - there || after.rows.len() == after.lines
                + after.max_scroll_limit
        }),
{
    let after = resized(g, reflow, lines, g.columns);
    let here = below_cursor(after);
    let there = below_cursor(g);
    assert forall|j: int| 0 <= j < after.rows.len() implies ({
        let i = j - here + there;
        &&& i < g.rows.len()
        &&& i >= 0 ==> #[trigger] after.rows[j] == g.rows[i]
        &&& i < 0 ==> (forall|c: int|
            0 <= c < g.columns ==> (#[trigger] after.rows[j][c]).content == 0)
    }) by {
        let i = j - here + there;
    }
}

/// A grid that gets more lines takes them from its history as long as there is
/// some: the cursor keeps its distance from the bottom, and nothing new is added.
/// Only what the history does not give is added below.
pub proof fn law_more_lines_come_from_the_history(g: GridView, reflow: bool, lines: int)
    requires
        grid_wf(g),
        g.lines <= lines <= usize::MAX,
    ensures
        ({
            let after = resized(g, reflow, lines, g.columns);
            let history = g.rows.len() - g.lines;
            let added = lines - g.lines;
            &&& added <= history ==> after.rows == g.rows && below_cursor(after) == below_cursor(g)
                && after.cursor.row == g.cursor.row + added
            &&& added > history ==> after.cursor.row == g.cursor.row + history && after.rows.len()
                == lines
            &&& after.saved_cursor.row - g.saved_cursor.row == after.cursor.row - g.cursor.row
        }),
{
    let after = resized(g, reflow, lines, g.columns);
    if lines - g.lines <= g.rows.len() - g.lines {
        assert(after.rows =~= g.rows);
    }
}

/// A grid that gets fewer lines drops what lies below the cursor first, and moves
/// lines into the history only as far as the cursor would not be shown otherwise.
pub proof fn law_fewer_lines_spare_the_cursor(g: GridView, reflow: bool, lines: int)
    requires
        grid_wf(g),
        MIN_LINES <= lines <= g.lines,
    ensures
        ({
            let after = resized(g, reflow, lines, g.columns);
            let history = g.rows.len() - g.lines;
            &&& g.cursor.row < lines ==> after.cursor.row == g.cursor.row && after.rows.len()
                - after.lines == history
            &&& g.cursor.row >= lines ==> after.cursor.row == lines - 1 && after.rows.len()
                - after.lines == min_int(history + g.cursor.row + 1 - lines, g.max_scroll_limit)
        }),
{
}

/// In a view that is scrolled up the topmost line stays where it is, as long as
/// the history holds what was scrolled.
pub proof fn law_a_scrolled_view_keeps_its_top(g: GridView, reflow: bool, lines: int)
    requires
        grid_wf(g),
        MIN_LINES <= lines <= usize::MAX,
        g.display_offset > 0,
        lines > g.lines ==> g.display_offset >= lines - g.lines,
        g.cursor.row >= lines ==> g.display_offset + g.cursor.row + 1 - lines <= g.max_scroll_limit,
    ensures
        ({
            let after = resized(g, reflow, lines, g.columns);
            after.rows[after.display_offset + after.lines - 1] == g.rows[g.display_offset + g.lines
                - 1]
        }),
{
    law_the_cursor_stays_on_its_text(g, reflow, lines);
    let after = resized(g, reflow, lines, g.columns);
    let top = after.display_offset + after.lines - 1;
    if lines <= g.lines {
        law_fewer_lines_spare_the_cursor(g, reflow, lines);
    } else {
        law_more_lines_come_from_the_history(g, reflow, lines);
    }
    assert(top - below_cursor(after) + below_cursor(g) == g.display_offset + g.lines - 1);
    assert(0 <= top < after.rows.len());
    assert(after.rows[top] == g.rows[top - below_cursor(after) + below_cursor(g)]);
}

/// A view that shows the latest lines goes on to do so.
pub proof fn law_a_view_at_the_bottom_stays_there(g: GridView, reflow: bool, lines: int)
    requires
        grid_wf(g),
        MIN_LINES <= lines <= usize::MAX,
        g.display_offset == 0,
    ensures
        resized(g, reflow, lines, g.columns).display_offset == 0,
{
}

} // verus!
