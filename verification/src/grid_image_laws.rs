//! What a resize keeps of inline images: each stays in one row, and one that was
//! cut by a narrower grid is whole again in a wider one.
use crate::grid::{
    blank, blank_rows, grid_wf, has_image, min_int, padded, wrap_flagged, GridView,
    ImageSpan, Square, MIN_COLUMNS, MIN_LINES,
};
use crate::grid_grow::{
    cursor_pulled, filled, grow_row, grow_rows, grow_start, opened, pulled, reaching, recovered,
    resized, span_end, takes_cells, viewport_filled, widened, with_more_columns, Merge,
};
use crate::grid_laws::{
    lemma_cut_is_prefix, lemma_cut_no_image, lemma_grow_rows_cursor, lemma_reaching_finds,
    lemma_reaching_known, lemma_trimmed_prefix, lemma_wrap_no_image,
};
use crate::grid_shrink::{
    cut_head, cut_tail, emitted, ends_in_spacer, fitting, lemma_shrink_rows, line_added,
    overflowing, shrink_row, shrink_rows, shrink_start, unspaced, with_fewer_columns, wrap_row,
    Reflow,
};
use crate::table::lookup;
use vstd::prelude::*;

verus! {

/// Whether a row shows an image.
pub open spec fn shows(row: Seq<Square>, id: u16) -> bool {
    exists|i: int|
        0 <= i < row.len() && (#[trigger] row[i]).shows_image() && row[i].extras_id == Some(id)
}

/// The rows that show an image, in their order.
pub open spec fn showing(rows: Seq<Seq<Square>>, id: u16) -> Seq<Seq<Square>>
    decreases rows.len(),
{
    if rows.len() == 0 {
        Seq::empty()
    } else {
        let before = showing(rows.drop_last(), id);
        if shows(rows.last(), id) {
            before.push(rows.last())
        } else {
            before
        }
    }
}

/// Rows, each cut to a width.
pub open spec fn cut_all(rows: Seq<Seq<Square>>, columns: int) -> Seq<Seq<Square>> {
    Seq::new(rows.len(), |i: int| fitting(rows[i], columns))
}

/// Rows, each at a new width with its images as far as they reach.
pub open spec fn widened_all(
    rows: Seq<Seq<Square>>,
    columns: int,
    extras: Seq<(u64, ImageSpan)>,
) -> Seq<Seq<Square>> {
    Seq::new(rows.len(), |i: int| widened(rows[i], columns, extras))
}

// ---------------------------------------------------------------------------
// The rows that go.

/// The rows that go as the number of lines changes: from the bottom, and where the
/// history is full from the top.
pub open spec fn lost_to_lines(g: GridView, lines: int) -> Seq<Seq<Square>> {
    if lines < g.lines {
        let scroll = if g.cursor.row + 1 > lines {
            g.cursor.row + 1 - lines
        } else {
            0
        };
        let all = blank_rows(scroll, g.columns) + g.rows;
        all.take(g.lines - lines) + all.skip(
            min_int(all.len() as int, g.lines + g.max_scroll_limit),
        )
    } else {
        Seq::empty()
    }
}

/// The rows that go as the grid gets narrower: what the history has no room for.
pub open spec fn lost_to_narrowing(g: GridView, reflow: bool, columns: int) -> Seq<Seq<Square>> {
    let made = shrink_rows(
        shrink_start(g, reflow),
        g.rows,
        g.rows.len() as int,
        g.lines,
        columns,
        reflow,
    ).out.reverse();
    made.skip(min_int(made.len() as int, g.max_scroll_limit + g.lines))
}

/// The rows made as the grid gets wider, oldest first, before the cursor is put
/// in its place.
pub open spec fn joined(g: GridView, reflow: bool, columns: int) -> Merge {
    viewport_filled(
        grow_rows(
            grow_start(g, reflow),
            g.rows,
            g.rows.len() as int,
            g.lines,
            columns,
            reflow,
        ),
        g.lines,
        columns,
    )
}

/// The rows that go as the grid gets wider: some below the cursor, so that it
/// stays in its place.
pub open spec fn lost_to_widening(g: GridView, reflow: bool, columns: int) -> Seq<Seq<Square>> {
    let full = joined(g, reflow, columns);
    full.out.skip(cursor_pulled(full, g.lines).out.len() as int)
}

/// The rows that go in a resize.
pub open spec fn lost(g: GridView, reflow: bool, lines: int, columns: int) -> Seq<Seq<Square>> {
    let tall = resized(g, reflow, lines, g.columns);
    lost_to_lines(g, lines) + if columns < g.columns {
        lost_to_narrowing(tall, reflow, columns)
    } else if columns > g.columns {
        lost_to_widening(tall, reflow, columns)
    } else {
        Seq::empty()
    }
}

// ---------------------------------------------------------------------------
// Rows that show an image.

proof fn lemma_showing_push(rows: Seq<Seq<Square>>, row: Seq<Square>, id: u16)
    ensures
        showing(rows.push(row), id) == if shows(row, id) {
            showing(rows, id).push(row)
        } else {
            showing(rows, id)
        },
{
    assert(rows.push(row).drop_last() =~= rows);
}

proof fn lemma_showing_add(a: Seq<Seq<Square>>, b: Seq<Seq<Square>>, id: u16)
    ensures
        showing(a + b, id) == showing(a, id) + showing(b, id),
    decreases b.len(),
{
    if b.len() == 0 {
        assert(a + b =~= a);
        assert(showing(a, id) + Seq::<Seq<Square>>::empty() =~= showing(a, id));
    } else {
        lemma_showing_add(a, b.drop_last(), id);
        assert((a + b).drop_last() =~= a + b.drop_last());
        let before = showing(b.drop_last(), id);
        assert(showing(a, id) + before.push(b.last()) =~= (showing(a, id) + before).push(
            b.last(),
        ));
    }
}

proof fn lemma_showing_one(row: Seq<Square>, id: u16)
    ensures
        showing(seq![row], id) == if shows(row, id) {
            seq![row]
        } else {
            Seq::empty()
        },
{
    lemma_showing_push(Seq::empty(), row, id);
    assert(Seq::<Seq<Square>>::empty().push(row) =~= seq![row]);
}

proof fn lemma_showing_reverse(rows: Seq<Seq<Square>>, id: u16)
    ensures
        showing(rows.reverse(), id) == showing(rows, id).reverse(),
    decreases rows.len(),
{
    if rows.len() > 0 {
        let init = rows.drop_last();
        let last = rows.last();
        lemma_showing_reverse(init, id);
        assert(rows.reverse() =~= seq![last] + init.reverse());
        lemma_showing_add(seq![last], init.reverse(), id);
        lemma_showing_one(last, id);
        if shows(last, id) {
            assert(showing(init, id).push(last).reverse() =~= seq![last] + showing(
                init,
                id,
            ).reverse());
        } else {
            assert(Seq::<Seq<Square>>::empty() + showing(init, id).reverse() =~= showing(
                init,
                id,
            ).reverse());
        }
    } else {
        assert(rows.reverse() =~= rows);
        assert(showing(rows, id).reverse() =~= showing(rows, id));
    }
}

proof fn lemma_showing_none(rows: Seq<Seq<Square>>, id: u16)
    requires
        forall|k: int| 0 <= k < rows.len() ==> !has_image(#[trigger] rows[k]),
    ensures
        showing(rows, id) == Seq::<Seq<Square>>::empty(),
    decreases rows.len(),
{
    if rows.len() > 0 {
        assert forall|k: int| 0 <= k < rows.drop_last().len() implies !has_image(
            #[trigger] rows.drop_last()[k],
        ) by {
            assert(rows.drop_last()[k] == rows[k]);
        }
        lemma_showing_none(rows.drop_last(), id);
        assert(!has_image(rows[rows.len() - 1]));
    }
}

proof fn lemma_blank_rows_show(n: int, columns: int, id: u16)
    ensures
        showing(blank_rows(n, columns), id) == Seq::<Seq<Square>>::empty(),
{
    lemma_showing_none(blank_rows(n, columns), id);
}

// ---------------------------------------------------------------------------
// Fewer and more lines.

proof fn lemma_lines_show(g: GridView, reflow: bool, lines: int, id: u16)
    requires
        grid_wf(g),
        MIN_LINES <= lines <= usize::MAX,
    ensures
        ({
            let tall = resized(g, reflow, lines, g.columns);
            &&& tall.lines == lines
            &&& tall.columns == g.columns
            &&& tall.extras == g.extras
            &&& tall.max_scroll_limit == g.max_scroll_limit
            &&& tall.cursor.row < lines
            &&& forall|k: int|
                0 <= k < tall.rows.len() ==> (#[trigger] tall.rows[k]).len() == g.columns
            &&& showing(tall.rows, id).len() <= showing(g.rows, id).len()
            &&& showing(lost_to_lines(g, lines), id).len() == 0 ==> showing(tall.rows, id)
                == showing(g.rows, id)
        }),
{
    let tall = resized(g, reflow, lines, g.columns);
    if g.lines < lines {
        let history = g.rows.len() - g.lines;
        let added = lines - g.lines;
        let fresh = blank_rows(added - min_int(history, added), g.columns);
        lemma_showing_add(fresh, g.rows, id);
        lemma_blank_rows_show(added - min_int(history, added), g.columns, id);
        assert(Seq::<Seq<Square>>::empty() + showing(g.rows, id) =~= showing(g.rows, id));
    } else if g.lines > lines {
        let scroll = if g.cursor.row + 1 > lines {
            g.cursor.row + 1 - lines
        } else {
            0
        };
        let fresh = blank_rows(scroll, g.columns);
        let all = fresh + g.rows;
        lemma_showing_add(fresh, g.rows, id);
        lemma_blank_rows_show(scroll, g.columns, id);
        assert(Seq::<Seq<Square>>::empty() + showing(g.rows, id) =~= showing(g.rows, id));
        let m = min_int(all.len() as int, g.lines + g.max_scroll_limit);
        let d = g.lines - lines;
        assert(tall.rows =~= all.take(m).skip(d));
        assert(all =~= all.take(d) + tall.rows + all.skip(m));
        lemma_showing_add(all.take(d) + tall.rows, all.skip(m), id);
        lemma_showing_add(all.take(d), tall.rows, id);
        lemma_showing_add(all.take(d), all.skip(m), id);
        if showing(lost_to_lines(g, lines), id).len() == 0 {
            assert(showing(all, id) =~= showing(tall.rows, id));
        }
    }
}

// ---------------------------------------------------------------------------
// Fewer columns.

/// Cutting a row without an image makes rows without one.
proof fn lemma_wrap_shows_none(
    st: Reflow,
    row: Seq<Square>,
    i: int,
    lines: int,
    columns: int,
    reflow: bool,
    id: u16,
)
    requires
        row.len() >= columns,
        columns >= MIN_COLUMNS,
        !has_image(row),
        st.buffered is None,
    ensures
        showing(wrap_row(st, row, i, lines, columns, reflow).out, id) == showing(st.out, id),
    decreases row.len(), st.col,
{
    let at_cursor = i == lines - st.row - 1;
    lemma_cut_no_image(row, columns);
    let head = wrap_flagged(cut_head(row, columns), true);
    lemma_showing_push(st.out, fitting(row, columns), id);
    lemma_showing_push(st.out, head, id);
    if reflow && !(overflowing(row, columns).len() == 0 && !(at_cursor && st.col > columns)) {
        let tail = cut_tail(row, columns);
        lemma_trimmed_prefix(row.skip(columns));
        if !(ends_in_spacer(tail) && tail.len() == 1) {
            let rest = unspaced(tail);
            let pushed = emitted(st, head);
            if !(rest.len() > 0 && rest.last().wrapline && i >= 1 && rest.len() < columns) {
                lemma_wrap_shows_none(
                    line_added(pushed, i, lines, columns),
                    padded(rest, columns),
                    i,
                    lines,
                    columns,
                    reflow,
                    id,
                );
            }
        }
    }
}

/// A row that is narrowed: one that shows an image is cut, and still shows it or
/// not; another one shows none afterwards either.
proof fn lemma_shrink_row_shows(
    st: Reflow,
    row: Seq<Square>,
    i: int,
    lines: int,
    columns: int,
    reflow: bool,
    id: u16,
)
    requires
        row.len() >= columns,
        columns >= MIN_COLUMNS,
        st.buffered matches Some(left) ==> !has_image(left),
    ensures
        ({
            let after = shrink_row(st, row, i, lines, columns, reflow);
            &&& after.buffered matches Some(left) ==> !has_image(left)
            &&& showing(after.out, id) == showing(st.out, id) + if shows(row, id) {
                showing(seq![fitting(row, columns)], id)
            } else {
                Seq::empty()
            }
        }),
{
    let fit = fitting(row, columns);
    let none = Seq::<Seq<Square>>::empty();
    assert(showing(st.out, id) + none =~= showing(st.out, id));
    if has_image(row) {
        let before = match st.buffered {
            Some(left) => {
                let spill = padded(left, columns);
                assert(!has_image(spill)) by {
                    assert forall|k: int| 0 <= k < spill.len() implies !(
                    #[trigger] spill[k]).shows_image() by {
                        if k < left.len() {
                            assert(!left[k].shows_image());
                        }
                    }
                }
                lemma_showing_push(st.out, spill, id);
                st.out.push(spill)
            },
            None => st.out,
        };
        lemma_showing_push(before, fit, id);
        lemma_showing_one(fit, id);
        assert(showing(before, id).push(fit) =~= showing(before, id) + seq![fit]);
        if !shows(row, id) {
            assert(!shows(fit, id)) by {
                assert forall|k: int|
                    0 <= k < fit.len() && (#[trigger] fit[k]).shows_image() implies fit[k].extras_id
                    != Some(id) by {
                    assert(fit[k] == row[k]);
                }
            }
        }
    } else {
        assert(!shows(row, id));
        let line = match st.buffered {
            Some(left) => left + row,
            None => row,
        };
        assert(!has_image(line)) by {
            assert forall|k: int| 0 <= k < line.len() implies !(
            #[trigger] line[k]).shows_image() by {
                if let Some(left) = st.buffered {
                    if k < left.len() {
                        assert(!left[k].shows_image());
                    } else {
                        assert(!row[k - left.len()].shows_image());
                    }
                } else {
                    assert(!row[k].shows_image());
                }
            }
        }
        let next = match st.buffered {
            Some(left) => if i == lines - st.row - 1 {
                Reflow { buffered: None, col: st.col + left.len(), ..st }
            } else {
                Reflow { buffered: None, ..st }
            },
            None => st,
        };
        lemma_wrap_no_image(next, line, i, lines, columns, reflow);
        lemma_wrap_shows_none(next, line, i, lines, columns, reflow, id);
        assert(shrink_row(st, row, i, lines, columns, reflow) == wrap_row(
            next,
            line,
            i,
            lines,
            columns,
            reflow,
        ));
    }
}

proof fn lemma_shrink_rows_show(
    st: Reflow,
    rows: Seq<Seq<Square>>,
    n: int,
    lines: int,
    columns: int,
    reflow: bool,
    id: u16,
)
    requires
        0 <= n <= rows.len(),
        columns >= MIN_COLUMNS,
        forall|k: int| 0 <= k < rows.len() ==> (#[trigger] rows[k]).len() >= columns,
        st.buffered matches Some(left) ==> !has_image(left),
    ensures
        showing(shrink_rows(st, rows, n, lines, columns, reflow).out, id) == showing(st.out, id)
            + showing(cut_all(showing(rows.take(n).reverse(), id), columns), id),
    decreases n,
{
    if n == 0 {
        assert(rows.take(0).reverse() =~= Seq::<Seq<Square>>::empty());
        assert(cut_all(Seq::empty(), columns) =~= Seq::<Seq<Square>>::empty());
        assert(showing(st.out, id) + Seq::<Seq<Square>>::empty() =~= showing(st.out, id));
    } else {
        let row = rows[n - 1];
        lemma_shrink_row_shows(st, row, n - 1, lines, columns, reflow, id);
        let next = shrink_row(st, row, n - 1, lines, columns, reflow);
        lemma_shrink_rows_show(next, rows, n - 1, lines, columns, reflow, id);
        let below = rows.take(n - 1).reverse();
        assert(rows.take(n).reverse() =~= seq![row] + below);
        lemma_showing_add(seq![row], below, id);
        lemma_showing_one(row, id);
        let first = showing(seq![row], id);
        let rest = showing(below, id);
        assert(cut_all(first + rest, columns) =~= cut_all(first, columns) + cut_all(
            rest,
            columns,
        ));
        lemma_showing_add(cut_all(first, columns), cut_all(rest, columns), id);
        if shows(row, id) {
            assert(cut_all(first, columns) =~= seq![fitting(row, columns)]);
        } else {
            assert(cut_all(first, columns) =~= Seq::<Seq<Square>>::empty());
        }
        let a = showing(st.out, id);
        let b = showing(cut_all(first, columns), id);
        let c = showing(cut_all(rest, columns), id);
        assert((a + b) + c =~= a + (b + c));
    }
}

proof fn lemma_narrowing_shows(g: GridView, reflow: bool, columns: int, id: u16)
    requires
        g.lines >= MIN_LINES,
        g.max_scroll_limit >= 0,
        MIN_COLUMNS <= columns < g.columns,
        g.cursor.row < g.lines,
        forall|k: int| 0 <= k < g.rows.len() ==> (#[trigger] g.rows[k]).len() == g.columns,
    ensures
        ({
            let after = with_fewer_columns(g, reflow, columns);
            let kept = showing(cut_all(showing(g.rows, id), columns), id);
            &&& after.cursor.row < g.lines
            &&& forall|k: int|
                0 <= k < after.rows.len() ==> (#[trigger] after.rows[k]).len() == columns
            &&& showing(after.rows, id).len() <= kept.len()
            &&& showing(lost_to_narrowing(g, reflow, columns), id).len() == 0 ==> showing(
                after.rows,
                id,
            ) == kept
        }),
{
    let n = g.rows.len() as int;
    let start = shrink_start(g, reflow);
    lemma_shrink_rows(start, g.rows, n, g.lines, columns, reflow);
    lemma_shrink_rows_show(start, g.rows, n, g.lines, columns, reflow, id);
    let made = shrink_rows(start, g.rows, n, g.lines, columns, reflow).out;
    assert(g.rows.take(n) =~= g.rows);
    let kept = showing(cut_all(showing(g.rows, id), columns), id);
    let old_first = showing(g.rows.reverse(), id);
    lemma_showing_reverse(g.rows, id);
    assert(cut_all(old_first, columns) =~= cut_all(showing(g.rows, id), columns).reverse());
    lemma_showing_reverse(cut_all(showing(g.rows, id), columns), id);
    assert(Seq::<Seq<Square>>::empty() + kept.reverse() =~= kept.reverse());
    assert(showing(made, id) == kept.reverse());
    lemma_showing_reverse(made, id);
    assert(kept.reverse().reverse() =~= kept);
    let all = made.reverse();
    let m = min_int(all.len() as int, g.max_scroll_limit + g.lines);
    let after = with_fewer_columns(g, reflow, columns);
    assert(after.rows =~= all.take(m));
    assert(all =~= all.take(m) + all.skip(m));
    lemma_showing_add(all.take(m), all.skip(m), id);
    if showing(all.skip(m), id).len() == 0 {
        assert(showing(all.take(m), id) =~= kept);
    }
    assert forall|k: int| 0 <= k < after.rows.len() implies (#[trigger] after.rows[k]).len()
        == columns by {
        assert(after.rows[k] == made[made.len() - 1 - k]);
    }
}

// ---------------------------------------------------------------------------
// More columns.

proof fn lemma_grow_row_shows(
    st: Merge,
    row: Seq<Square>,
    i: int,
    lines: int,
    columns: int,
    reflow: bool,
    id: u16,
)
    requires
        row.len() > 0,
    ensures
        showing(grow_row(st, row, i, lines, columns, reflow).out, id) == showing(st.out, id)
            + showing(seq![row], id),
{
    lemma_showing_one(row, id);
    let none = Seq::<Seq<Square>>::empty();
    assert(showing(st.out, id) + none =~= showing(st.out, id));
    if st.out.len() == 0 || !takes_cells(st.out.last(), columns, reflow) || has_image(row)
        || has_image(st.out.last()) {
        lemma_showing_push(st.out, row, id);
        assert(showing(st.out, id).push(row) =~= showing(st.out, id) + seq![row]);
    } else {
        let last = st.out.last();
        let init = st.out.drop_last();
        let rest = row.skip(pulled(last, row, columns));
        let full = filled(last, row, columns);
        let flagged = wrap_flagged(full, true);
        assert(st.out =~= init.push(last));
        assert forall|k: int| 0 <= k < row.len() implies !(#[trigger] row[k]).shows_image() by {}
        assert forall|k: int| 0 <= k < last.len() implies !(
        #[trigger] last[k]).shows_image() by {}
        let open = opened(last);
        assert forall|k: int| 0 <= k < open.len() implies !(#[trigger] open[k]).shows_image() by {
            assert(!last[k].shows_image());
        }
        assert forall|k: int| 0 <= k < full.len() implies !(#[trigger] full[k]).shows_image() by {
            if k < open.len() {
                assert(full[k] == open[k]);
            } else if k < open.len() + pulled(last, row, columns) {
                assert(full[k] == row[k - open.len()]);
            }
        }
        assert forall|k: int| 0 <= k < flagged.len() implies !(
        #[trigger] flagged[k]).shows_image() by {
            assert(!full[k].shows_image());
        }
        assert forall|k: int| 0 <= k < rest.len() implies !(#[trigger] rest[k]).shows_image() by {
            assert(rest[k] == row[k + pulled(last, row, columns)]);
        }
        lemma_showing_push(init, last, id);
        lemma_showing_push(init, full, id);
        lemma_showing_push(init, flagged, id);
        lemma_showing_push(init.push(flagged), rest, id);
    }
}

proof fn lemma_grow_rows_show(
    st: Merge,
    rows: Seq<Seq<Square>>,
    n: int,
    lines: int,
    columns: int,
    reflow: bool,
    id: u16,
)
    requires
        0 <= n <= rows.len(),
        forall|k: int| 0 <= k < rows.len() ==> (#[trigger] rows[k]).len() > 0,
    ensures
        showing(grow_rows(st, rows, n, lines, columns, reflow).out, id) == showing(st.out, id)
            + showing(rows.take(n).reverse(), id),
    decreases n,
{
    if n == 0 {
        assert(rows.take(0).reverse() =~= Seq::<Seq<Square>>::empty());
        assert(showing(st.out, id) + Seq::<Seq<Square>>::empty() =~= showing(st.out, id));
    } else {
        let row = rows[n - 1];
        lemma_grow_row_shows(st, row, n - 1, lines, columns, reflow, id);
        let next = grow_row(st, row, n - 1, lines, columns, reflow);
        lemma_grow_rows_show(next, rows, n - 1, lines, columns, reflow, id);
        let below = rows.take(n - 1).reverse();
        assert(rows.take(n).reverse() =~= seq![row] + below);
        lemma_showing_add(seq![row], below, id);
        let a = showing(st.out, id);
        let b = showing(seq![row], id);
        let c = showing(below, id);
        assert((a + b) + c =~= a + (b + c));
    }
}

/// A cell that was covered again is covered by one of the images, and any other is
/// as it was.
proof fn lemma_recovered_cell(
    row: Seq<Square>,
    spans: Seq<(u16, int)>,
    n: int,
    from: int,
    c: int,
)
    requires
        0 <= n <= spans.len(),
        0 <= c < row.len(),
    ensures
        ({
            let cell = recovered(row, spans, n, from)[c];
            &&& recovered(row, spans, n, from).len() == row.len()
            &&& cell.bg_only == row[c].bg_only
            &&& c < from || (forall|k: int| 0 <= k < n ==> (#[trigger] spans[k]).1 <= c) ==> cell
                == row[c]
            &&& (exists|k: int| 0 <= k < n && (#[trigger] spans[k]).1 > c) && from <= c
                ==> cell.graphics
            &&& cell == row[c] || exists|k: int|
                0 <= k < n && cell.extras_id == Some((#[trigger] spans[k]).0)
        }),
    decreases n,
{
    if n > 0 {
        lemma_recovered_cell(row, spans, n - 1, from, c);
        let before = recovered(row, spans, n - 1, from)[c];
        let cell = recovered(row, spans, n, from)[c];
        if from <= c < spans[n - 1].1 {
            assert(cell.extras_id == Some(spans[n - 1].0));
        } else {
            assert(cell == before);
            if exists|k: int| 0 <= k < n && (#[trigger] spans[k]).1 > c {
                let k = choose|k: int| 0 <= k < n && (#[trigger] spans[k]).1 > c;
                assert(c < from || k < n - 1);
            }
        }
    }
}

/// A row that is widened shows the images that it showed.
proof fn lemma_widened_shows(
    row: Seq<Square>,
    columns: int,
    extras: Seq<(u64, ImageSpan)>,
    id: u16,
)
    ensures
        shows(widened(row, columns, extras), id) == shows(row, id),
{
    if row.len() < columns {
        let wide = padded(row, columns);
        let from = row.len() as int;
        let spans = reaching(wide, from, from, extras);
        let n = spans.len() as int;
        let back = widened(row, columns, extras);
        assert forall|c: int| 0 <= c < row.len() implies #[trigger] back[c] == row[c] by {
            lemma_recovered_cell(wide, spans, n, from, c);
            assert(wide[c] == row[c]);
        }
        if shows(row, id) {
            let c = choose|c: int|
                0 <= c < row.len() && (#[trigger] row[c]).shows_image() && row[c].extras_id
                    == Some(id);
            assert(back[c] == row[c]);
            lemma_recovered_cell(wide, spans, n, from, c);
            assert(shows(back, id));
        }
        if shows(back, id) {
            let c = choose|c: int|
                0 <= c < back.len() && (#[trigger] back[c]).shows_image() && back[c].extras_id
                    == Some(id);
            if row.len() == 0 {
                assert(back[c] == blank());
            } else {
                assert(back == recovered(wide, spans, n, from));
                if c < row.len() {
                    assert(row[c].shows_image());
                } else {
                    assert(c < wide.len()) by {
                        lemma_recovered_cell(wide, spans, n, from, 0);
                    }
                    lemma_recovered_cell(wide, spans, n, from, c);
                    assert(wide[c] == blank());
                    let k = choose|k: int|
                        0 <= k < n && back[c].extras_id == Some((#[trigger] spans[k]).0);
                    lemma_reaching_known(wide, from, from, extras);
                    assert(lookup(extras, spans[k].0 as u64) is Some);
                    let j = choose|j: int|
                        0 <= j < from && (#[trigger] wide[j]).shows_image() && wide[j].extras_id
                            == Some(spans[k].0);
                    assert(row[j] == wide[j]);
                }
            }
        }
    }
}

proof fn lemma_widened_all_show(
    rows: Seq<Seq<Square>>,
    columns: int,
    extras: Seq<(u64, ImageSpan)>,
    id: u16,
)
    ensures
        showing(widened_all(rows, columns, extras), id) == widened_all(
            showing(rows, id),
            columns,
            extras,
        ),
    decreases rows.len(),
{
    if rows.len() == 0 {
        assert(widened_all(showing(rows, id), columns, extras) =~= Seq::<Seq<Square>>::empty());
    } else {
        let init = rows.drop_last();
        lemma_widened_all_show(init, columns, extras, id);
        assert(widened_all(rows, columns, extras).drop_last() =~= widened_all(
            init,
            columns,
            extras,
        ));
        lemma_widened_shows(rows.last(), columns, extras, id);
        assert(widened_all(showing(rows, id), columns, extras) =~= if shows(rows.last(), id) {
            widened_all(showing(init, id), columns, extras).push(
                widened(rows.last(), columns, extras),
            )
        } else {
            widened_all(showing(init, id), columns, extras)
        });
    }
}

proof fn lemma_widening_shows(g: GridView, reflow: bool, columns: int, id: u16)
    requires
        MIN_LINES <= g.lines <= usize::MAX,
        0 < g.columns < columns,
        g.cursor.row < g.lines,
        forall|k: int| 0 <= k < g.rows.len() ==> (#[trigger] g.rows[k]).len() == g.columns,
    ensures
        ({
            let after = with_more_columns(g, reflow, columns);
            let kept = widened_all(showing(g.rows, id), columns, g.extras);
            &&& showing(after.rows, id).len() <= kept.len()
            &&& showing(lost_to_widening(g, reflow, columns), id).len() == 0 ==> showing(
                after.rows,
                id,
            ) == kept
        }),
{
    let n = g.rows.len() as int;
    let start = grow_start(g, reflow);
    lemma_grow_rows_show(start, g.rows, n, g.lines, columns, reflow, id);
    lemma_grow_rows_cursor(start, g.rows, n, g.lines, columns, reflow);
    assert(g.rows.take(n) =~= g.rows);
    let merged = grow_rows(start, g.rows, n, g.lines, columns, reflow);
    let held = showing(g.rows, id);
    lemma_showing_reverse(g.rows, id);
    assert(Seq::<Seq<Square>>::empty() + held.reverse() =~= held.reverse());
    let full = joined(g, reflow, columns);
    if merged.out.len() < g.lines {
        let fresh = blank_rows(g.lines - merged.out.len(), columns);
        lemma_showing_add(merged.out, fresh, id);
        lemma_blank_rows_show(g.lines - merged.out.len(), columns, id);
        assert(held.reverse() + Seq::<Seq<Square>>::empty() =~= held.reverse());
    }
    assert(showing(full.out, id) == held.reverse());
    let done = cursor_pulled(full, g.lines);
    let keep = done.out.len() as int;
    lemma_cut_is_prefix(full, g.lines, done);
    assert(done.out =~= full.out.take(keep));
    assert(full.out =~= full.out.take(keep) + full.out.skip(keep));
    lemma_showing_add(full.out.take(keep), full.out.skip(keep), id);
    let narrow = done.out.reverse();
    lemma_showing_reverse(done.out, id);
    let after = with_more_columns(g, reflow, columns);
    assert(after.rows =~= widened_all(narrow, columns, g.extras));
    lemma_widened_all_show(narrow, columns, g.extras, id);
    if showing(full.out.skip(keep), id).len() == 0 {
        assert(showing(done.out, id) =~= held.reverse());
        assert(held.reverse().reverse() =~= held);
    }
}

// ---------------------------------------------------------------------------
// Laws.

/// A resize makes no ghost copies: no more rows show an image afterwards than did
/// before.
pub proof fn law_a_resize_copies_no_image(
    g: GridView,
    reflow: bool,
    lines: int,
    columns: int,
    id: u16,
)
    requires
        grid_wf(g),
        MIN_LINES <= lines <= usize::MAX,
        MIN_COLUMNS <= columns,
    ensures
        showing(resized(g, reflow, lines, columns).rows, id).len() <= showing(g.rows, id).len(),
{
    lemma_lines_show(g, reflow, lines, id);
    let tall = resized(g, reflow, lines, g.columns);
    if columns < g.columns {
        lemma_narrowing_shows(tall, reflow, columns, id);
        lemma_showing_fewer(cut_all(showing(tall.rows, id), columns), id);
    } else if columns > g.columns {
        lemma_widening_shows(tall, reflow, columns, id);
    }
}

proof fn lemma_showing_fewer(rows: Seq<Seq<Square>>, id: u16)
    ensures
        showing(rows, id).len() <= rows.len(),
    decreases rows.len(),
{
    if rows.len() > 0 {
        lemma_showing_fewer(rows.drop_last(), id);
    }
}

/// Whether a row shows an image, and no other, in all of its columns that the
/// image covers, and nowhere else.
pub open spec fn shows_whole(row: Seq<Square>, id: u16, span: ImageSpan) -> bool {
    forall|c: int|
        0 <= c < row.len() ==> {
            &&& (#[trigger] row[c]).shows_image() <==> span.anchor_col <= c < span_end(span)
            &&& row[c].shows_image() ==> row[c].extras_id == Some(id)
        }
}

/// A narrower grid only hides pixels. Where one row shows an image, and the grid is
/// made narrower and then wider again with whatever number of lines, one row shows
/// it again, whole as far as the grid reaches, and no other row does: unless its
/// row is among those that go, or the image begins behind the narrower grid.
pub proof fn law_an_image_comes_back_whole(
    g: GridView,
    reflow: bool,
    lines: int,
    narrow: int,
    wide: int,
    row: Seq<Square>,
    id: u16,
)
    requires
        grid_wf(g),
        MIN_LINES <= lines <= usize::MAX,
        MIN_COLUMNS <= narrow < g.columns,
        narrow < wide,
        showing(g.rows, id) == seq![row],
        lookup(g.extras, id as u64) is Some,
        shows_whole(row, id, lookup(g.extras, id as u64)->0),
        lookup(g.extras, id as u64)->0.anchor_col < narrow,
        showing(lost(g, reflow, lines, narrow), id).len() == 0,
        showing(lost(resized(g, reflow, lines, narrow), reflow, lines, wide), id).len() == 0,
    ensures
        ({
            let twice = resized(resized(g, reflow, lines, narrow), reflow, lines, wide);
            &&& showing(twice.rows, id).len() == 1
            &&& showing(twice.rows, id)[0].len() == wide
            &&& shows_whole(showing(twice.rows, id)[0], id, lookup(g.extras, id as u64)->0)
        }),
{
    let span = lookup(g.extras, id as u64)->0;
    let tall = resized(g, reflow, lines, g.columns);
    let once = resized(g, reflow, lines, narrow);
    let twice = resized(once, reflow, lines, wide);
    lemma_lines_show(g, reflow, lines, id);
    lemma_showing_add(
        lost_to_lines(g, lines),
        lost_to_narrowing(tall, reflow, narrow),
        id,
    );
    assert(once == with_fewer_columns(tall, reflow, narrow));
    lemma_narrowing_shows(tall, reflow, narrow, id);
    let cut = fitting(row, narrow);
    assert(row.len() == g.columns && shows(row, id)) by {
        lemma_showing_are_rows(g.rows, id, g.columns);
        assert(showing(g.rows, id)[0] == row);
    }
    let j = choose|j: int|
        0 <= j < row.len() && (#[trigger] row[j]).shows_image() && row[j].extras_id == Some(id);
    let a = span.anchor_col as int;
    assert(row[a].shows_image());
    assert(cut[a] == row[a]);
    assert(shows(cut, id));
    assert(cut_all(seq![row], narrow) =~= seq![cut]);
    lemma_showing_one(cut, id);
    assert(showing(once.rows, id) == seq![cut]);
    let again = resized(once, reflow, lines, once.columns);
    assert(again == once);
    assert(lost(once, reflow, lines, wide) =~= lost_to_widening(once, reflow, wide));
    lemma_widening_shows(once, reflow, wide, id);
    let back = widened(cut, wide, g.extras);
    assert(widened_all(seq![cut], wide, g.extras) =~= seq![back]);
    assert(showing(twice.rows, id) == seq![back]);
    lemma_whole_again(row, narrow, wide, g.extras, id);
}

/// A row that was cut and widened shows its image whole.
proof fn lemma_whole_again(
    row: Seq<Square>,
    narrow: int,
    wide: int,
    extras: Seq<(u64, ImageSpan)>,
    id: u16,
)
    requires
        0 < narrow < row.len(),
        narrow < wide,
        lookup(extras, id as u64) is Some,
        shows_whole(row, id, lookup(extras, id as u64)->0),
        lookup(extras, id as u64)->0.anchor_col < narrow,
        shows(fitting(row, narrow), id),
    ensures
        widened(fitting(row, narrow), wide, extras).len() == wide,
        shows_whole(
            widened(fitting(row, narrow), wide, extras),
            id,
            lookup(extras, id as u64)->0,
        ),
{
    let span = lookup(extras, id as u64)->0;
    let cut = fitting(row, narrow);
    let padded_ = padded(cut, wide);
    let spans = reaching(padded_, narrow, narrow, extras);
    let n = spans.len() as int;
    let back = widened(cut, wide, extras);
    assert(back == recovered(padded_, spans, n, narrow));
    lemma_recovered_cell(padded_, spans, n, narrow, 0);
    lemma_reaching_known(padded_, narrow, narrow, extras);
    assert forall|k: int| 0 <= k < n implies (#[trigger] spans[k]) == (id, span_end(span)) by {
        let i = choose|i: int|
            0 <= i < narrow && (#[trigger] padded_[i]).shows_image() && padded_[i].extras_id
                == Some(spans[k].0);
        assert(padded_[i] == row[i]);
    }
    assert forall|c: int| 0 <= c < back.len() implies {
        &&& (#[trigger] back[c]).shows_image() <==> span.anchor_col <= c < span_end(span)
        &&& back[c].shows_image() ==> back[c].extras_id == Some(id)
    } by {
        lemma_recovered_cell(padded_, spans, n, narrow, c);
        if c < narrow {
            assert(back[c] == padded_[c]);
            assert(padded_[c] == row[c]);
            assert(row[c].shows_image() <==> span.anchor_col <= c < span_end(span));
        } else {
            assert(padded_[c] == blank());
            if c < span_end(span) {
                let j = choose|j: int|
                    0 <= j < cut.len() && (#[trigger] cut[j]).shows_image() && cut[j].extras_id
                        == Some(id);
                assert(padded_[j] == cut[j]);
                let k = lemma_reaching_finds(padded_, narrow, narrow, extras, j, id);
                assert(spans[k].1 > c);
                assert(back[c].graphics);
                assert(back[c] != padded_[c]);
            } else {
                assert(back[c] == padded_[c]);
            }
        }
    }
}

/// The rows that show an image are rows of the grid, and do.
proof fn lemma_showing_are_rows(rows: Seq<Seq<Square>>, id: u16, columns: int)
    requires
        forall|k: int| 0 <= k < rows.len() ==> (#[trigger] rows[k]).len() == columns,
    ensures
        forall|k: int|
            0 <= k < showing(rows, id).len() ==> (#[trigger] showing(rows, id)[k]).len() == columns
                && shows(showing(rows, id)[k], id),
    decreases rows.len(),
{
    if rows.len() > 0 {
        let init = rows.drop_last();
        assert forall|k: int| 0 <= k < init.len() implies (#[trigger] init[k]).len()
            == columns by {
            assert(init[k] == rows[k]);
        }
        lemma_showing_are_rows(init, id, columns);
        assert(rows[rows.len() - 1].len() == columns);
        let before = showing(init, id);
        let all = showing(rows, id);
        assert forall|k: int| 0 <= k < all.len() implies (#[trigger] all[k]).len() == columns
            && shows(all[k], id) by {
            if k < before.len() {
                assert(all[k] == before[k]);
            }
        }
    }
}

} // verus!
