//! What a grid keeps when only the number of its columns changes.
use crate::grid::{
    grid_wf, has_image, min_int, padded, trimmed, wrap_flagged, Cursor, GridView, Square, Wide,
};
use crate::grid_grow::{
    back_by, cursor_pulled, filled, grow_row, grow_rows, grow_start, opened, reaching, recovered,
    resized, takes_cells, viewport_filled, widened, Merge,
};
use crate::grid_shrink::{
    cut_head, cut_tail, emitted, fitting, lemma_trimmed_len, line_added, overflowing, shrink_row,
    shrink_rows, shrink_start, unspaced, wrap_row, Reflow,
};
use vstd::prelude::*;

verus! {

/// Whether a cell shows nothing at all.
pub open spec fn shows_nothing(cell: Square) -> bool {
    &&& cell.content == 0
    &&& cell.wide == Wide::Narrow
    &&& !cell.wrapline
    &&& !cell.graphics
    &&& !cell.bg_only
}

/// Whether all that a row shows stands in its first columns.
pub open spec fn fits(row: Seq<Square>, columns: int) -> bool {
    forall|c: int| columns <= c < row.len() ==> shows_nothing(#[trigger] row[c])
}

proof fn lemma_trimmed_nothing(row: Seq<Square>)
    requires
        forall|c: int| 0 <= c < row.len() ==> shows_nothing(#[trigger] row[c]),
    ensures
        trimmed(row).len() == 0,
    decreases row.len(),
{
    if row.len() > 0 {
        let init = row.drop_last();
        assert(shows_nothing(row[row.len() - 1]));
        assert forall|c: int| 0 <= c < init.len() implies shows_nothing(#[trigger] init[c]) by {
            assert(init[c] == row[c]);
        }
        lemma_trimmed_nothing(init);
    }
}

proof fn lemma_cut_rows(
    st: Reflow,
    rows: Seq<Seq<Square>>,
    n: int,
    lines: int,
    columns: int,
    reflow: bool,
)
    requires
        0 <= n <= rows.len(),
        2 <= columns,
        st.buffered is None,
        reflow ==> st.col <= columns,
        reflow ==> forall|i: int| 0 <= i < rows.len() ==> fits(#[trigger] rows[i], columns),
    ensures
        ({
            let done = shrink_rows(st, rows, n, lines, columns, reflow);
            &&& done == (Reflow { out: done.out, ..st })
            &&& done.out.len() == st.out.len() + n
            &&& forall|j: int| 0 <= j < st.out.len() ==> #[trigger] done.out[j] == st.out[j]
            &&& forall|j: int|
                st.out.len() <= j < done.out.len() ==> #[trigger] done.out[j] == fitting(
                    rows[n - 1 - (j - st.out.len())],
                    columns,
                )
        }),
    decreases n,
{
    if n > 0 {
        let row = rows[n - 1];
        if reflow {
            assert(fits(row, columns));
            if row.len() > columns {
                let over = row.skip(columns);
                assert forall|c: int| 0 <= c < over.len() implies shows_nothing(
                    #[trigger] over[c],
                ) by {
                    assert(over[c] == row[c + columns]);
                }
                lemma_trimmed_nothing(over);
            }
        }
        let next = shrink_row(st, row, n - 1, lines, columns, reflow);
        assert(next == emitted(st, fitting(row, columns)));
        lemma_cut_rows(next, rows, n - 1, lines, columns, reflow);
        let done = shrink_rows(st, rows, n, lines, columns, reflow);
        assert forall|j: int| 0 <= j < st.out.len() implies #[trigger] done.out[j] == st.out[j] by {
            assert(done.out[j] == next.out[j]);
        }
        assert forall|j: int| st.out.len() <= j < done.out.len() implies #[trigger] done.out[j]
            == fitting(rows[n - 1 - (j - st.out.len())], columns) by {
            if j == st.out.len() {
                assert(done.out[j] == next.out[j]);
            }
        }
    }
}

/// Rows that fit into fewer columns are cut and no more: each stays a row of its
/// own, and the cursor and the view stay on theirs. Without reflow this holds of
/// every row, whatever is lost.
pub proof fn law_rows_that_fit_stay_rows(g: GridView, reflow: bool, columns: int)
    requires
        grid_wf(g),
        2 <= columns < g.columns,
        reflow ==> !g.cursor.should_wrap && g.cursor.col < columns,
        reflow ==> forall|i: int| 0 <= i < g.rows.len() ==> fits(#[trigger] g.rows[i], columns),
    ensures
        ({
            let after = resized(g, reflow, g.lines, columns);
            &&& after.columns == columns
            &&& after.lines == g.lines
            &&& after.rows.len() == g.rows.len()
            &&& forall|i: int|
                0 <= i < g.rows.len() ==> #[trigger] after.rows[i] == g.rows[i].take(columns)
            &&& after.cursor.row == g.cursor.row
            &&& g.cursor.col < columns ==> after.cursor == g.cursor
            &&& g.cursor.col >= columns ==> after.cursor.col == columns - 1
            &&& after.cursor.should_wrap == g.cursor.should_wrap
            &&& after.saved_cursor.row == g.saved_cursor.row
            &&& g.saved_cursor.col < columns ==> after.saved_cursor == g.saved_cursor
            &&& g.saved_cursor.col >= columns ==> after.saved_cursor.col == columns - 1
            &&& after.display_offset == g.display_offset
        }),
{
    let start = shrink_start(g, reflow);
    let n = g.rows.len() as int;
    lemma_cut_rows(start, g.rows, n, g.lines, columns, reflow);
    let done = shrink_rows(start, g.rows, n, g.lines, columns, reflow);
    let all = done.out.reverse();
    let after = resized(g, reflow, g.lines, columns);
    assert(all.take(min_int(all.len() as int, g.max_scroll_limit + g.lines)) =~= all);
    assert forall|i: int| 0 <= i < g.rows.len() implies #[trigger] after.rows[i]
        == g.rows[i].take(columns) by {
        assert(after.rows[i] == done.out[n - 1 - i]);
        assert(g.rows[i].len() == g.columns);
    }
}

proof fn lemma_kept_rows(
    st: Merge,
    rows: Seq<Seq<Square>>,
    n: int,
    lines: int,
    columns: int,
    reflow: bool,
)
    requires
        0 <= n <= rows.len(),
        reflow ==> forall|i: int|
            0 <= i < rows.len() && rows[i].len() > 0 ==> !(#[trigger] rows[i]).last().wrapline,
        st.out.len() > 0 ==> !takes_cells(st.out.last(), columns, reflow),
    ensures
        ({
            let done = grow_rows(st, rows, n, lines, columns, reflow);
            &&& done == (Merge { out: done.out, ..st })
            &&& done.out.len() == st.out.len() + n
            &&& forall|j: int| 0 <= j < st.out.len() ==> #[trigger] done.out[j] == st.out[j]
            &&& forall|j: int|
                st.out.len() <= j < done.out.len() ==> #[trigger] done.out[j] == rows[n - 1 - (j
                    - st.out.len())]
        }),
    decreases n,
{
    if n > 0 {
        let row = rows[n - 1];
        let next = grow_row(st, row, n - 1, lines, columns, reflow);
        assert(next == (Merge { out: st.out.push(row), ..st }));
        lemma_kept_rows(next, rows, n - 1, lines, columns, reflow);
        let done = grow_rows(st, rows, n, lines, columns, reflow);
        assert forall|j: int| 0 <= j < st.out.len() implies #[trigger] done.out[j] == st.out[j] by {
            assert(done.out[j] == next.out[j]);
        }
        assert forall|j: int| st.out.len() <= j < done.out.len() implies #[trigger] done.out[j]
            == rows[n - 1 - (j - st.out.len())] by {
            if j == st.out.len() {
                assert(done.out[j] == next.out[j]);
            }
        }
    }
}

proof fn lemma_recovered_content(row: Seq<Square>, spans: Seq<(u16, int)>, n: int, from: int)
    requires
        0 <= n <= spans.len(),
    ensures
        recovered(row, spans, n, from).len() == row.len(),
        forall|c: int|
            0 <= c < row.len() ==> (#[trigger] recovered(row, spans, n, from)[c]).content
                == row[c].content,
        forall|c: int|
            0 <= c < row.len() && c < from ==> #[trigger] recovered(row, spans, n, from)[c]
                == row[c],
    decreases n,
{
    if n > 0 {
        lemma_recovered_content(row, spans, n - 1, from);
    }
}

/// Rows that do not go on in the next one get blank columns and no more: each
/// stays a row of its own, and the cursor and the view stay on theirs. Without
/// reflow this holds of every row. A cursor that waited for room has it now.
pub proof fn law_whole_rows_get_blank_columns(g: GridView, reflow: bool, columns: int)
    requires
        grid_wf(g),
        g.lines <= usize::MAX,
        g.columns < columns <= usize::MAX,
        reflow ==> forall|i: int|
            0 <= i < g.rows.len() ==> !(#[trigger] g.rows[i]).last().wrapline,
    ensures
        ({
            let after = resized(g, reflow, g.lines, columns);
            &&& after.columns == columns
            &&& after.lines == g.lines
            &&& after.rows.len() == g.rows.len()
            &&& forall|i: int|
                0 <= i < g.rows.len() ==> {
                    &&& (#[trigger] after.rows[i]).len() == columns
                    &&& after.rows[i].take(g.columns) == g.rows[i]
                }
            &&& forall|i: int, c: int|
                0 <= i < g.rows.len() && g.columns <= c < columns ==> (
                #[trigger] after.rows[i][c]).content == 0
            &&& after.cursor.row == g.cursor.row
            &&& !(reflow && g.cursor.should_wrap) ==> after.cursor == g.cursor
            &&& reflow && g.cursor.should_wrap ==> after.cursor.col == g.cursor.col + 1
                && !after.cursor.should_wrap
            &&& after.saved_cursor == g.saved_cursor
            &&& after.display_offset == g.display_offset
        }),
{
    let start = grow_start(g, reflow);
    let n = g.rows.len() as int;
    assert forall|i: int| 0 <= i < g.rows.len() && g.rows[i].len() > 0 && reflow implies !(
    #[trigger] g.rows[i]).last().wrapline by {}
    lemma_kept_rows(start, g.rows, n, g.lines, columns, reflow);
    let done = grow_rows(start, g.rows, n, g.lines, columns, reflow);
    let narrow = done.out.reverse();
    let after = resized(g, reflow, g.lines, columns);
    assert forall|i: int| 0 <= i < g.rows.len() implies {
        &&& (#[trigger] after.rows[i]).len() == columns
        &&& after.rows[i].take(g.columns) == g.rows[i]
        &&& forall|c: int| g.columns <= c < columns ==> (#[trigger] after.rows[i][c]).content == 0
    } by {
        let row = g.rows[i];
        assert(row.len() == g.columns);
        assert(narrow[i] == done.out[n - 1 - i]);
        assert(narrow[i] == row);
        assert(after.rows[i] == widened(row, columns, g.extras));
        let wide = padded(row, columns);
        let spans = reaching(wide, row.len() as int, row.len() as int, g.extras);
        lemma_recovered_content(wide, spans, spans.len() as int, row.len() as int);
        assert(after.rows[i] == recovered(wide, spans, spans.len() as int, row.len() as int));
        assert(after.rows[i].take(g.columns) =~= row);
    }
}

// ---------------------------------------------------------------------------
// The cursor in text that is wrapped anew.

/// Whether a row holds narrow characters only, does not go on in the next one and
/// anchors no image.
pub open spec fn is_simple(row: Seq<Square>) -> bool {
    &&& !has_image(row)
    &&& forall|c: int|
        0 <= c < row.len() ==> (#[trigger] row[c]).wide == Wide::Narrow && !row[c].wrapline
}

proof fn lemma_trimmed_prefix(row: Seq<Square>)
    ensures
        trimmed(row).len() <= row.len(),
        trimmed(row) == row.take(trimmed(row).len() as int),
        forall|c: int| trimmed(row).len() <= c < row.len() ==> (#[trigger] row[c]).content == 0,
    decreases row.len(),
{
    if row.len() > 0 && row.last().spec_is_empty() {
        let init = row.drop_last();
        lemma_trimmed_prefix(init);
        assert(init.take(trimmed(init).len() as int) =~= row.take(trimmed(init).len() as int));
        assert forall|c: int| trimmed(row).len() <= c < row.len() implies (
        #[trigger] row[c]).content == 0 by {
            if c < init.len() {
                assert(init[c] == row[c]);
            }
        }
    } else {
        assert(row.take(row.len() as int) =~= row);
    }
}

proof fn lemma_simple_rest(row: Seq<Square>, columns: int)
    requires
        is_simple(row),
        2 <= columns <= row.len(),
    ensures
        ({
            let rest = padded(unspaced(cut_tail(row, columns)), columns);
            &&& cut_head(row, columns) == fitting(row, columns)
            &&& unspaced(cut_tail(row, columns)) == overflowing(row, columns)
            &&& is_simple(rest)
            &&& rest.len() < row.len() || rest.len() <= columns
            &&& forall|c: int|
                columns <= c < row.len() && (#[trigger] row[c]).content != 0 ==> c - columns
                    < rest.len() && rest[c - columns] == row[c]
        }),
{
    let over = row.skip(columns);
    let tail = overflowing(row, columns);
    lemma_trimmed_prefix(over);
    assert(row.len() == columns ==> over =~= Seq::<Square>::empty());
    assert forall|c: int| 0 <= c < tail.len() implies #[trigger] tail[c] == row[c + columns] by {
        assert(tail[c] == over[c]);
    }
    if tail.len() > 0 {
        assert(tail.last() == row[tail.len() - 1 + columns]);
    }
    let rest = padded(tail, columns);
    assert forall|c: int| 0 <= c < rest.len() implies (#[trigger] rest[c]).wide == Wide::Narrow
        && !rest[c].wrapline && !rest[c].shows_image() by {
        if c < tail.len() {
            assert(rest[c] == row[c + columns]);
            assert(!row[c + columns].shows_image());
        }
    }
    assert forall|c: int| columns <= c < row.len() && (#[trigger] row[c]).content != 0 implies c
        - columns < rest.len() && rest[c - columns] == row[c] by {
        assert(over[c - columns] == row[c]);
        assert(tail[c - columns] == row[c]);
    }
}

/// What wrapping a row does to a cursor that does not stand in it: nothing where it
/// stands above, and where it stands below it moves up with its row.
proof fn lemma_wrap_beside(
    st: Reflow,
    row: Seq<Square>,
    i: int,
    lines: int,
    columns: int,
)
    requires
        is_simple(row),
        2 <= columns,
        0 <= st.row < lines,
        st.buffered is None,
        i != lines - st.row - 1,
    ensures
        ({
            let done = wrap_row(st, row, i, lines, columns, true);
            let added = done.out.len() - st.out.len();
            &&& done.buffered is None
            &&& added >= 1
            &&& done.col == st.col
            &&& i > lines - st.row - 1 ==> done.row == st.row
            &&& i < lines - st.row - 1 ==> done.row == if st.row >= added - 1 {
                st.row - (added - 1)
            } else {
                0
            }
            &&& forall|j: int| 0 <= j < st.out.len() ==> #[trigger] done.out[j] == st.out[j]
        }),
    decreases row.len(), st.col,
{
    if !(row.len() < columns || overflowing(row, columns).len() == 0) {
        lemma_simple_rest(row, columns);
        lemma_trimmed_len(row.skip(columns));
        let rest = unspaced(cut_tail(row, columns));
        assert(rest.last() == row[rest.len() - 1 + columns]) by {
            lemma_trimmed_prefix(row.skip(columns));
            assert(rest.last() == row.skip(columns)[rest.len() - 1]);
        }
        assert(!rest.last().wrapline);
        let pushed = emitted(st, wrap_flagged(cut_head(row, columns), true));
        let next = line_added(pushed, i, lines, columns);
        lemma_wrap_beside(next, padded(rest, columns), i, lines, columns);
        let done = wrap_row(st, row, i, lines, columns, true);
        assert(done == wrap_row(next, padded(rest, columns), i, lines, columns, true));
        assert forall|j: int| 0 <= j < st.out.len() implies #[trigger] done.out[j] == st.out[j] by {
            assert(done.out[j] == next.out[j]);
        }
    }
}

/// Where the row of the cursor stands among the rows made so far, with the row at
/// `i` as the last one taken.
spec fn made_at(st: Reflow, i: int, lines: int) -> int {
    st.out.len() - 1 - (lines - st.row - 1 - i)
}

/// Whether the cursor stands on `content`, in a row that was made.
spec fn stands_on(st: Reflow, i: int, lines: int, columns: int, content: u32) -> bool {
    let at = made_at(st, i, lines);
    &&& 0 <= at < st.out.len()
    &&& 0 <= st.col < columns
    &&& st.col < st.out[at].len()
    &&& st.out[at][st.col].content == content
}

proof fn lemma_wrap_cursor(
    st: Reflow,
    row: Seq<Square>,
    i: int,
    lines: int,
    columns: int,
)
    requires
        is_simple(row),
        2 <= columns,
        0 <= st.row < lines,
        st.buffered is None,
        i == lines - st.row - 1,
        0 <= st.col < row.len(),
        row[st.col].content != 0,
    ensures
        ({
            let done = wrap_row(st, row, i, lines, columns, true);
            &&& done.buffered is None
            &&& done.out.len() > st.out.len()
            &&& 0 <= done.row <= st.row
            &&& done.row > 0 ==> stands_on(done, i, lines, columns, row[st.col].content)
        }),
    decreases row.len(), st.col,
{
    let content = row[st.col].content;
    if row.len() >= columns {
        lemma_simple_rest(row, columns);
        lemma_trimmed_prefix(row.skip(columns));
        if st.col >= columns {
            assert(row.skip(columns)[st.col - columns] == row[st.col]);
        }
    }
    if row.len() < columns || overflowing(row, columns).len() == 0 {
        assert(st.col < columns);
        assert(wrap_row(st, row, i, lines, columns, true) == emitted(st, fitting(row, columns)));
    } else {
        lemma_trimmed_len(row.skip(columns));
        let head = cut_head(row, columns);
        let rest = unspaced(cut_tail(row, columns));
        assert(rest.last() == row.skip(columns)[rest.len() - 1]);
        assert(rest.last() == row[rest.len() - 1 + columns]);
        assert(!rest.last().wrapline);
        let pushed = emitted(st, wrap_flagged(head, true));
        let next = line_added(pushed, i, lines, columns);
        let line = padded(rest, columns);
        let done = wrap_row(st, row, i, lines, columns, true);
        assert(done == wrap_row(next, line, i, lines, columns, true));
        if st.col >= columns {
            assert(line[st.col - columns] == row[st.col]);
            lemma_wrap_cursor(next, line, i, lines, columns);
        } else if st.row > 0 {
            assert(next.out[st.out.len() as int][st.col].content == content);
            lemma_wrap_beside(next, line, i, lines, columns);
            if done.row > 0 {
                let at = made_at(done, i, lines);
                assert(at == st.out.len());
                assert(done.out[at] == next.out[at]);
            }
        } else {
            lemma_wrap_top(next, line, i, lines, columns);
        }
    }
}

/// At the top of the viewport a cursor stays there.
proof fn lemma_wrap_top(
    st: Reflow,
    row: Seq<Square>,
    i: int,
    lines: int,
    columns: int,
)
    requires
        is_simple(row),
        2 <= columns,
        st.row == 0,
        0 < lines,
        st.buffered is None,
        i == lines - 1,
        0 <= st.col < columns,
    ensures
        ({
            let done = wrap_row(st, row, i, lines, columns, true);
            &&& done.buffered is None
            &&& done.out.len() > st.out.len()
            &&& done.row == 0
            &&& done.col == st.col
        }),
    decreases row.len(), st.col,
{
    if !(row.len() < columns || overflowing(row, columns).len() == 0) {
        lemma_simple_rest(row, columns);
        lemma_trimmed_len(row.skip(columns));
        lemma_trimmed_prefix(row.skip(columns));
        let rest = unspaced(cut_tail(row, columns));
        assert(rest.last() == row.skip(columns)[rest.len() - 1]);
        assert(rest.last() == row[rest.len() - 1 + columns]);
        let pushed = emitted(st, wrap_flagged(cut_head(row, columns), true));
        let next = line_added(pushed, i, lines, columns);
        lemma_wrap_top(next, padded(rest, columns), i, lines, columns);
    }
}

/// The rows below the cursor.
proof fn lemma_shrink_below(
    st: Reflow,
    rows: Seq<Seq<Square>>,
    n: int,
    lines: int,
    columns: int,
    content: u32,
)
    requires
        0 <= n <= rows.len(),
        2 <= columns,
        0 <= st.row < lines,
        n <= lines - st.row - 1,
        st.buffered is None,
        forall|j: int| 0 <= j < rows.len() ==> is_simple(#[trigger] rows[j]),
        st.row > 0 ==> stands_on(st, n, lines, columns, content),
    ensures
        ({
            let done = shrink_rows(st, rows, n, lines, columns, true);
            &&& 0 <= done.row <= st.row
            &&& done.out.len() >= st.out.len() + n
            &&& done.row > 0 ==> stands_on(done, 0, lines, columns, content)
        }),
    decreases n,
{
    if n > 0 {
        let row = rows[n - 1];
        assert(is_simple(row));
        let next = shrink_row(st, row, n - 1, lines, columns, true);
        assert(next == wrap_row(st, row, n - 1, lines, columns, true));
        lemma_wrap_beside(st, row, n - 1, lines, columns);
        if next.row > 0 {
            let at = made_at(next, n - 1, lines);
            assert(at == made_at(st, n, lines));
            assert(next.out[at] == st.out[at]);
        }
        lemma_shrink_below(next, rows, n - 1, lines, columns, content);
    }
}

/// All rows, of which the one at `k` is the cursor's.
proof fn lemma_shrink_all(
    st: Reflow,
    rows: Seq<Seq<Square>>,
    n: int,
    lines: int,
    columns: int,
)
    requires
        0 <= n <= rows.len(),
        2 <= columns,
        0 <= st.row < lines,
        0 <= lines - st.row - 1 < n,
        st.buffered is None,
        forall|j: int| 0 <= j < rows.len() ==> is_simple(#[trigger] rows[j]),
        0 <= st.col < rows[lines - st.row - 1].len(),
        rows[lines - st.row - 1][st.col].content != 0,
    ensures
        ({
            let done = shrink_rows(st, rows, n, lines, columns, true);
            &&& 0 <= done.row <= st.row
            &&& done.out.len() >= st.out.len() + n
            &&& done.row > 0 ==> stands_on(
                done,
                0,
                lines,
                columns,
                rows[lines - st.row - 1][st.col].content,
            )
        }),
    decreases n,
{
    let k = lines - st.row - 1;
    let row = rows[n - 1];
    assert(is_simple(row));
    let next = shrink_row(st, row, n - 1, lines, columns, true);
    assert(next == wrap_row(st, row, n - 1, lines, columns, true));
    if k == n - 1 {
        lemma_wrap_cursor(st, row, n - 1, lines, columns);
        lemma_shrink_below(next, rows, n - 1, lines, columns, rows[k][st.col].content);
    } else {
        lemma_wrap_beside(st, row, n - 1, lines, columns);
        lemma_shrink_all(next, rows, n - 1, lines, columns);
    }
}

/// In text that is wrapped into fewer columns the cursor stays on the character it
/// stood on, as long as that is not pushed out at the top of the viewport.
pub proof fn law_the_cursor_stays_on_its_character(g: GridView, columns: int)
    requires
        grid_wf(g),
        g.lines <= usize::MAX,
        2 <= columns < g.columns <= usize::MAX,
        forall|i: int| 0 <= i < g.rows.len() ==> is_simple(#[trigger] g.rows[i]),
        !g.cursor.should_wrap,
        g.rows[g.lines - 1 - g.cursor.row][g.cursor.col as int].content != 0,
    ensures
        ({
            let after = resized(g, true, g.lines, columns);
            let there = g.rows[g.lines - 1 - g.cursor.row][g.cursor.col as int];
            let here = after.rows[g.lines - 1 - after.cursor.row][after.cursor.col as int];
            &&& after.cursor.row <= g.cursor.row
            &&& after.cursor.row > 0 ==> here.content == there.content
        }),
{
    let start = shrink_start(g, true);
    let n = g.rows.len() as int;
    lemma_shrink_all(start, g.rows, n, g.lines, columns);
    let done = shrink_rows(start, g.rows, n, g.lines, columns, true);
    let all = done.out.reverse();
    let after = resized(g, true, g.lines, columns);
    if done.row > 0 {
        let at = made_at(done, 0, g.lines);
        let i = g.lines - 1 - done.row;
        assert(all[i] == done.out[at]);
        assert(after.rows[i] == all[i]);
    }
}

/// Where the row of the cursor stands among the rows joined so far, with the row at
/// `i` as the last one taken.
spec fn joined_at(st: Merge, i: int, lines: int) -> int {
    st.out.len() - 1 - (lines - st.cursor.row - 1 - i)
}

/// Whether the cursor stands on `content`, in a row that was joined.
spec fn is_on(st: Merge, i: int, lines: int, content: u32) -> bool {
    let at = joined_at(st, i, lines);
    let col = st.cursor.col as int;
    &&& 0 <= at < st.out.len()
    &&& col < st.out[at].len()
    &&& st.out[at][col].content == content
    &&& st.out[at][col].wide != Wide::LeadingSpacer
}

proof fn lemma_filled_front(last: Seq<Square>, row: Seq<Square>, columns: int, col: int)
    requires
        0 <= col < last.len(),
        last[col].wide != Wide::LeadingSpacer,
    ensures
        ({
            let all = filled(last, row, columns);
            let flagged = wrap_flagged(all, true);
            &&& col < all.len()
            &&& all[col].content == last[col].content
            &&& all[col].wide == last[col].wide
            &&& col < flagged.len()
            &&& flagged[col].content == last[col].content
            &&& flagged[col].wide == last[col].wide
        }),
{
    let open = opened(last);
    assert(col < open.len());
    assert(open[col].content == last[col].content);
    assert(open[col].wide == last[col].wide);
    let all = filled(last, row, columns);
    assert(all[col] == open[col]);
}

/// The rows below the cursor.
proof fn lemma_join_below(
    st: Merge,
    rows: Seq<Seq<Square>>,
    n: int,
    lines: int,
    columns: int,
    reflow: bool,
    content: u32,
)
    requires
        0 <= n <= rows.len(),
        0 <= st.cursor.row < lines <= usize::MAX,
        n <= lines - st.cursor.row - 1,
        is_on(st, n, lines, content),
    ensures
        ({
            let done = grow_rows(st, rows, n, lines, columns, reflow);
            &&& done.cursor == (Cursor { row: done.cursor.row, ..st.cursor })
            &&& st.cursor.row <= done.cursor.row < lines
            &&& done.cursor_line_delta == st.cursor_line_delta
            &&& is_on(done, 0, lines, content)
        }),
    decreases n,
{
    if n > 0 {
        let row = rows[n - 1];
        let next = grow_row(st, row, n - 1, lines, columns, reflow);
        let at = joined_at(st, n, lines);
        let last = st.out.last();
        if at == st.out.len() - 1 {
            lemma_filled_front(last, row, columns, st.cursor.col as int);
        }
        assert(next.cursor.row == st.cursor.row || next.cursor.row == st.cursor.row + 1);
        assert(joined_at(next, n - 1, lines) == at);
        assert(is_on(next, n - 1, lines, content));
        lemma_join_below(next, rows, n - 1, lines, columns, reflow, content);
    }
}

proof fn lemma_rows_split(
    st: Merge,
    rows: Seq<Seq<Square>>,
    n: int,
    k: int,
    lines: int,
    columns: int,
    reflow: bool,
)
    requires
        0 <= k <= n <= rows.len(),
        reflow ==> forall|i: int|
            k < i < rows.len() && rows[i].len() > 0 ==> !(#[trigger] rows[i]).last().wrapline,
        st.out.len() > 0 ==> !takes_cells(st.out.last(), columns, reflow),
    ensures
        ({
            let there = Merge {
                out: st.out + Seq::new((n - k) as nat, |j: int| rows[n - 1 - j]),
                ..st
            };
            grow_rows(st, rows, n, lines, columns, reflow) == grow_rows(
                there,
                rows,
                k,
                lines,
                columns,
                reflow,
            )
        }),
    decreases n,
{
    if n > k {
        let row = rows[n - 1];
        let next = grow_row(st, row, n - 1, lines, columns, reflow);
        assert(next == (Merge { out: st.out.push(row), ..st }));
        if n - 1 > k {
            lemma_rows_split(next, rows, n - 1, k, lines, columns, reflow);
        }
        assert(next.out + Seq::new((n - 1 - k) as nat, |j: int| rows[n - 2 - j]) =~= st.out
            + Seq::new((n - k) as nat, |j: int| rows[n - 1 - j]));
    } else {
        assert(st.out + Seq::new(0, |j: int| rows[n - 1 - j]) =~= st.out);
    }
}

/// In text that is joined into more columns the cursor stays on the character it
/// stood on, whatever is joined from its row on downwards, as long as there are
/// rows enough for it not to be pushed out at the top.
pub proof fn law_the_cursor_stays_as_rows_are_joined(g: GridView, reflow: bool, columns: int)
    requires
        grid_wf(g),
        g.lines <= usize::MAX,
        g.columns < columns <= usize::MAX,
        !g.cursor.should_wrap,
        reflow ==> forall|i: int|
            g.lines - 1 - g.cursor.row < i < g.rows.len() ==> !(
            #[trigger] g.rows[i]).last().wrapline,
        g.rows[g.lines - 1 - g.cursor.row][g.cursor.col as int].wide != Wide::LeadingSpacer,
    ensures
        ({
            let after = resized(g, reflow, g.lines, columns);
            let there = g.rows[g.lines - 1 - g.cursor.row][g.cursor.col as int];
            let here = after.rows[g.lines - 1 - after.cursor.row][after.cursor.col as int];
            &&& after.cursor.col == g.cursor.col
            &&& !after.cursor.should_wrap
            &&& after.cursor.row > 0 ==> here.content == there.content
        }),
{
    let start = grow_start(g, reflow);
    let n = g.rows.len() as int;
    let k = g.lines - 1 - g.cursor.row;
    let content = g.rows[k][g.cursor.col as int].content;
    lemma_rows_split(start, g.rows, n, k, g.lines, columns, reflow);
    let there = Merge {
        out: start.out + Seq::new((n - k) as nat, |j: int| g.rows[n - 1 - j]),
        ..start
    };
    assert(there.out.last() == g.rows[k]);
    assert(joined_at(there, k, g.lines) == there.out.len() - 1);
    assert(is_on(there, k, g.lines, content));
    lemma_join_below(there, g.rows, k, g.lines, columns, reflow, content);
    let done = grow_rows(start, g.rows, n, g.lines, columns, reflow);
    let full = viewport_filled(done, g.lines, columns);
    assert(cursor_pulled(full, g.lines) == full);
    let narrow = full.out.reverse();
    let after = resized(g, reflow, g.lines, columns);
    if after.cursor.row > 0 {
        let i = g.lines - 1 - after.cursor.row;
        let at = joined_at(done, 0, g.lines);
        assert(full.out[at] == done.out[at]);
        assert(i == full.out.len() - 1 - at);
        assert(narrow[i] == done.out[at]);
        let row = narrow[i];
        assert(after.rows[i] == widened(row, columns, g.extras));
        let wide = padded(row, columns);
        let spans = reaching(wide, row.len() as int, row.len() as int, g.extras);
        lemma_recovered_content(wide, spans, spans.len() as int, row.len() as int);
        assert(wide[g.cursor.col as int] == row[g.cursor.col as int]);
    }
}

/// A position moved back by cells is that many cells earlier in reading order, and
/// the top left corner where there are not so many.
pub proof fn law_a_position_moves_back_cell_by_cell(row: int, col: int, n: int, columns: int)
    requires
        0 <= row,
        0 <= col < columns,
        0 <= n <= columns,
    ensures
        ({
            let to = back_by(row, col, n, columns);
            &&& row * columns + col >= n ==> to.0 * columns + to.1 == row * columns + col - n
            &&& row * columns + col < n ==> to == (0int, 0int)
            &&& 0 <= to.0 <= row
            &&& 0 <= to.1 < columns
        }),
{
    let to = back_by(row, col, n, columns);
    assert(row > 0 ==> row * columns >= columns) by (nonlinear_arith)
        requires
            row >= 0,
            columns > 0,
    ;
    assert((row - 1) * columns == row * columns - columns) by (nonlinear_arith);
    if n <= col {
        assert((n + columns - 1 - col) / columns == 0) by (nonlinear_arith)
            requires
                0 <= n <= col < columns,
        ;
        assert((columns + col - n) % columns == col - n) by (nonlinear_arith)
            requires
                0 <= n <= col < columns,
        ;
        assert(n % columns == n) by (nonlinear_arith)
            requires
                0 <= n < columns,
        ;
    } else {
        assert((n + columns - 1 - col) / columns == 1) by (nonlinear_arith)
            requires
                0 <= col < n <= columns,
        ;
        if n == columns {
            assert(n % columns == 0) by (nonlinear_arith)
                requires
                    n == columns,
                    columns > 0,
            ;
            assert((columns + col) % columns == col) by (nonlinear_arith)
                requires
                    0 <= col < columns,
            ;
        } else {
            assert(n % columns == n) by (nonlinear_arith)
                requires
                    0 <= n < columns,
            ;
            assert((columns + col - n) % columns == columns + col - n) by (nonlinear_arith)
                requires
                    0 <= col < n < columns,
            ;
        }
        if row == 0 {
            assert(row * columns == 0) by (nonlinear_arith)
                requires
                    row == 0,
            ;
        }
    }
}

} // verus!
