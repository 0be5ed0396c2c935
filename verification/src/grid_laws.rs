//! What a resize keeps: the text, and its order.
use crate::grid::{
    blank_row, blank_rows, grid_wf, has_image, is_clear, leading_spacer, padded, trimmed,
    wrap_flagged, GridView, ImageSpan, Square, Wide, MIN_COLUMNS,
};
use crate::grid_grow::{
    back_by, cursor_pulled, cuts_wide, filled, grow_row, grow_rows, grow_start, moved_back, opened,
    pulled, reaching, recovered, span_end, takes_cells, viewport_filled, widened, with_more_columns,
    Merge,
};
use crate::grid_shrink::{
    cut_head, cut_tail, emitted, ends_in_spacer, fitting, lemma_shrink_rows, lemma_trimmed_len,
    line_added, overflowing, shrink_row, shrink_rows, shrink_start, unspaced, with_fewer_columns,
    wrap_row, Reflow,
};
use crate::table::lookup;
use vstd::prelude::*;

verus! {

/// Whether a cell carries text. A spacer that fills a column does not.
pub open spec fn has_ink(cell: Square) -> bool {
    cell.content != 0 && cell.wide != Wide::LeadingSpacer
}

/// The text of a row.
pub open spec fn ink(row: Seq<Square>) -> Seq<u32>
    decreases row.len(),
{
    if row.len() == 0 {
        Seq::empty()
    } else if has_ink(row.last()) {
        ink(row.drop_last()).push(row.last().content)
    } else {
        ink(row.drop_last())
    }
}

/// The text of rows in the order given.
pub open spec fn ink_of(rows: Seq<Seq<Square>>) -> Seq<u32>
    decreases rows.len(),
{
    if rows.len() == 0 {
        Seq::empty()
    } else {
        ink_of(rows.drop_last()) + ink(rows.last())
    }
}

/// The text of a grid, whose rows are kept bottom first.
pub open spec fn text(rows: Seq<Seq<Square>>) -> Seq<u32> {
    ink_of(rows.reverse())
}

/// The text of a reflow under way.
pub open spec fn reflow_text(st: Reflow) -> Seq<u32> {
    ink_of(st.out) + match st.buffered {
        Some(left) => ink(left),
        None => Seq::empty(),
    }
}

proof fn lemma_ink_add(a: Seq<Square>, b: Seq<Square>)
    ensures
        ink(a + b) == ink(a) + ink(b),
    decreases b.len(),
{
    if b.len() == 0 {
        assert(a + b =~= a);
        assert(ink(a) + ink(b) =~= ink(a));
    } else {
        lemma_ink_add(a, b.drop_last());
        assert((a + b).drop_last() =~= a + b.drop_last());
        assert((a + b).last() == b.last());
        assert(ink(a + b) =~= ink(a) + ink(b));
    }
}

proof fn lemma_ink_of_push(rows: Seq<Seq<Square>>, row: Seq<Square>)
    ensures
        ink_of(rows.push(row)) == ink_of(rows) + ink(row),
{
    assert(rows.push(row).drop_last() =~= rows);
}

proof fn lemma_ink_of_add(a: Seq<Seq<Square>>, b: Seq<Seq<Square>>)
    ensures
        ink_of(a + b) == ink_of(a) + ink_of(b),
    decreases b.len(),
{
    if b.len() == 0 {
        assert(a + b =~= a);
        assert(ink_of(a) + ink_of(b) =~= ink_of(a));
    } else {
        lemma_ink_of_add(a, b.drop_last());
        assert((a + b).drop_last() =~= a + b.drop_last());
        assert((a + b).last() == b.last());
        assert(ink_of(a + b) =~= ink_of(a) + ink_of(b));
    }
}

/// Cells that differ in nothing that text depends on.
proof fn lemma_same_ink(a: Seq<Square>, b: Seq<Square>)
    requires
        a.len() == b.len(),
        forall|i: int|
            0 <= i < a.len() ==> (#[trigger] a[i]).content == b[i].content && a[i].wide
                == b[i].wide,
    ensures
        ink(a) == ink(b),
    decreases a.len(),
{
    if a.len() > 0 {
        assert(a[a.len() - 1].content == b[b.len() - 1].content);
        assert forall|i: int| 0 <= i < a.drop_last().len() implies (
        #[trigger] a.drop_last()[i]).content == b.drop_last()[i].content && a.drop_last()[i].wide
            == b.drop_last()[i].wide by {
            assert(a.drop_last()[i] == a[i]);
        }
        lemma_same_ink(a.drop_last(), b.drop_last());
    }
}

/// Cells without text.
proof fn lemma_no_ink(row: Seq<Square>)
    requires
        forall|i: int| 0 <= i < row.len() ==> !has_ink(#[trigger] row[i]),
    ensures
        ink(row) == Seq::<u32>::empty(),
    decreases row.len(),
{
    if row.len() > 0 {
        assert(!has_ink(row[row.len() - 1]));
        assert forall|i: int| 0 <= i < row.drop_last().len() implies !has_ink(
            #[trigger] row.drop_last()[i],
        ) by {
            assert(row.drop_last()[i] == row[i]);
        }
        lemma_no_ink(row.drop_last());
    }
}

proof fn lemma_ink_flagged(row: Seq<Square>, wrapline: bool)
    ensures
        ink(wrap_flagged(row, wrapline)) == ink(row),
{
    lemma_same_ink(wrap_flagged(row, wrapline), row);
}

proof fn lemma_ink_padded(row: Seq<Square>, columns: int)
    ensures
        ink(padded(row, columns)) == ink(row),
{
    if row.len() < columns {
        let fill = blank_row(columns - row.len());
        lemma_ink_add(row, fill);
        lemma_no_ink(fill);
        assert(ink(row) + Seq::<u32>::empty() =~= ink(row));
    }
}

proof fn lemma_ink_trimmed(row: Seq<Square>)
    ensures
        ink(trimmed(row)) == ink(row),
    decreases row.len(),
{
    if row.len() > 0 && row.last().spec_is_empty() {
        lemma_ink_trimmed(row.drop_last());
    }
}

/// Cutting a row keeps its text.
proof fn lemma_ink_cut(row: Seq<Square>, columns: int)
    requires
        row.len() >= columns,
        columns >= 1,
    ensures
        ink(fitting(row, columns)) + ink(overflowing(row, columns)) == ink(row),
        ink(cut_head(row, columns)) + ink(cut_tail(row, columns)) == ink(row),
        ink(unspaced(cut_tail(row, columns))) == ink(cut_tail(row, columns)),
{
    let head = fitting(row, columns);
    let tail = overflowing(row, columns);
    if row.len() > columns {
        lemma_ink_add(row.take(columns), row.skip(columns));
        assert(row.take(columns) + row.skip(columns) =~= row);
        lemma_ink_trimmed(row.skip(columns));
    } else {
        assert(ink(head) + ink(tail) =~= ink(row));
    }
    let wide = head[columns - 1];
    if wide.wide == Wide::Wide {
        let front = head.take(columns - 1);
        assert(head =~= front + seq![wide]);
        assert(cut_head(row, columns) =~= front + seq![leading_spacer()]);
        lemma_ink_add(front, seq![wide]);
        lemma_ink_add(front, seq![leading_spacer()]);
        lemma_ink_add(seq![wide], tail);
        lemma_no_ink(seq![leading_spacer()]);
        assert(ink(front) + Seq::<u32>::empty() + (ink(seq![wide]) + ink(tail)) =~= ink(front)
            + ink(seq![wide]) + ink(tail));
    }
    let cut = cut_tail(row, columns);
    if ends_in_spacer(cut) {
        lemma_ink_flagged(cut.drop_last(), true);
    }
}

/// Cutting a row into several keeps its text.
proof fn lemma_wrap_keeps_text(
    st: Reflow,
    row: Seq<Square>,
    i: int,
    lines: int,
    columns: int,
)
    requires
        row.len() >= columns,
        columns >= MIN_COLUMNS,
        st.buffered is None,
    ensures
        reflow_text(wrap_row(st, row, i, lines, columns, true)) == ink_of(st.out) + ink(row),
    decreases row.len(), st.col,
{
    let at_cursor = i == lines - st.row - 1;
    lemma_ink_cut(row, columns);
    if overflowing(row, columns).len() == 0 && !(at_cursor && st.col > columns) {
        lemma_ink_of_push(st.out, fitting(row, columns));
        assert(ink(fitting(row, columns)) + Seq::<u32>::empty() =~= ink(fitting(row, columns)));
        assert(reflow_text(emitted(st, fitting(row, columns))) =~= ink_of(st.out) + ink(row));
    } else {
        let head = cut_head(row, columns);
        let tail = cut_tail(row, columns);
        let flagged = wrap_flagged(head, true);
        lemma_ink_flagged(head, true);
        lemma_ink_of_push(st.out, flagged);
        if ends_in_spacer(tail) && tail.len() == 1 {
            lemma_no_ink(tail);
            assert(ink(head) + Seq::<u32>::empty() =~= ink(head));
            assert(reflow_text(emitted(st, flagged)) =~= ink_of(st.out) + ink(row));
        } else {
            let rest = unspaced(tail);
            let pushed = emitted(st, flagged);
            assert(ink_of(pushed.out) + ink(rest) =~= ink_of(st.out) + ink(row));
            if rest.len() > 0 && rest.last().wrapline && i >= 1 && rest.len() < columns {
                lemma_ink_flagged(rest, false);
            } else {
                lemma_trimmed_len(row.skip(columns));
                lemma_ink_padded(rest, columns);
                lemma_wrap_keeps_text(
                    line_added(pushed, i, lines, columns),
                    padded(rest, columns),
                    i,
                    lines,
                    columns,
                );
            }
        }
    }
}

proof fn lemma_shrink_row_keeps_text(
    st: Reflow,
    row: Seq<Square>,
    i: int,
    lines: int,
    columns: int,
)
    requires
        row.len() >= columns,
        columns >= MIN_COLUMNS,
        !has_image(row),
        st.buffered matches Some(left) ==> !has_image(left),
    ensures
        reflow_text(shrink_row(st, row, i, lines, columns, true)) == reflow_text(st) + ink(row),
        shrink_row(st, row, i, lines, columns, true).buffered matches Some(left) ==> !has_image(
            left,
        ),
{
    let line = match st.buffered {
        Some(left) => left + row,
        None => row,
    };
    let next = match st.buffered {
        Some(left) => if i == lines - st.row - 1 {
            Reflow { col: st.col + left.len(), buffered: None, ..st }
        } else {
            Reflow { buffered: None, ..st }
        },
        None => st,
    };
    assert(!has_image(line)) by {
        if has_image(line) {
            let k = choose|k: int| 0 <= k < line.len() && (#[trigger] line[k]).shows_image();
            if let Some(left) = st.buffered {
                if k < left.len() {
                    assert(left[k].shows_image());
                } else {
                    assert(row[k - left.len()].shows_image());
                }
            } else {
                assert(row[k].shows_image());
            }
        }
    }
    lemma_wrap_keeps_text(next, line, i, lines, columns);
    lemma_wrap_no_image(next, line, i, lines, columns, true);
    if let Some(left) = st.buffered {
        lemma_ink_add(left, row);
        assert(ink_of(st.out) + (ink(left) + ink(row)) =~= ink_of(st.out) + ink(left) + ink(row));
    } else {
        assert(ink_of(st.out) + Seq::<u32>::empty() + ink(row) =~= ink_of(st.out) + ink(row));
    }
}

pub(crate) proof fn lemma_trimmed_prefix(row: Seq<Square>)
    ensures
        forall|k: int| 0 <= k < trimmed(row).len() ==> #[trigger] trimmed(row)[k] == row[k],
        trimmed(row).len() <= row.len(),
    decreases row.len(),
{
    if row.len() > 0 && row.last().spec_is_empty() {
        lemma_trimmed_prefix(row.drop_last());
        assert forall|k: int| 0 <= k < trimmed(row).len() implies #[trigger] trimmed(row)[k]
            == row[k] by {
            assert(trimmed(row.drop_last())[k] == row.drop_last()[k]);
        }
    }
}

/// The parts that a row without an image is cut into show none either.
pub(crate) proof fn lemma_cut_no_image(row: Seq<Square>, columns: int)
    requires
        row.len() >= columns,
        columns >= MIN_COLUMNS,
        !has_image(row),
    ensures
        !has_image(fitting(row, columns)),
        !has_image(wrap_flagged(cut_head(row, columns), true)),
        !has_image(unspaced(cut_tail(row, columns))),
        !has_image(wrap_flagged(unspaced(cut_tail(row, columns)), false)),
        !has_image(padded(unspaced(cut_tail(row, columns)), columns)),
{
    let tail = cut_tail(row, columns);
    let fit = fitting(row, columns);
    let head = wrap_flagged(cut_head(row, columns), true);
    lemma_trimmed_prefix(row.skip(columns));
    assert forall|k: int| 0 <= k < row.len() implies !(#[trigger] row[k]).shows_image() by {}
    assert forall|k: int| 0 <= k < fit.len() implies !(#[trigger] fit[k]).shows_image() by {
        assert(fit[k] == row[k]);
    }
    assert forall|k: int| 0 <= k < head.len() implies !(#[trigger] head[k]).shows_image() by {
        assert(!fit[k].shows_image());
    }
    assert forall|k: int| 0 <= k < tail.len() implies !(#[trigger] tail[k]).shows_image() by {
        let over = overflowing(row, columns);
        if fit[columns - 1].wide == Wide::Wide {
            if k == 0 {
                assert(tail[k] == row[columns - 1]);
            } else {
                assert(tail[k] == over[k - 1]);
                assert(over[k - 1] == row.skip(columns)[k - 1]);
                assert(tail[k] == row[columns + k - 1]);
            }
        } else {
            assert(tail[k] == over[k]);
            assert(over[k] == row.skip(columns)[k]);
            assert(tail[k] == row[columns + k]);
        }
    }
    let rest = unspaced(tail);
    assert forall|k: int| 0 <= k < rest.len() implies !(#[trigger] rest[k]).shows_image() by {
        assert(!tail[k].shows_image());
        if ends_in_spacer(tail) && k == rest.len() - 1 {
            assert(rest[k].graphics == tail[k].graphics);
            assert(rest[k].bg_only == tail[k].bg_only);
        }
    }
    let left = wrap_flagged(rest, false);
    assert forall|k: int| 0 <= k < left.len() implies !(#[trigger] left[k]).shows_image() by {
        assert(!rest[k].shows_image());
    }
    let line = padded(rest, columns);
    assert forall|k: int| 0 <= k < line.len() implies !(#[trigger] line[k]).shows_image() by {
        if k < rest.len() {
            assert(line[k] == rest[k]);
        }
    }
}

/// Cells left over from a row without an image show none either.
pub(crate) proof fn lemma_wrap_no_image(
    st: Reflow,
    row: Seq<Square>,
    i: int,
    lines: int,
    columns: int,
    reflow: bool,
)
    requires
        row.len() >= columns,
        columns >= MIN_COLUMNS,
        !has_image(row),
        st.buffered is None,
    ensures
        wrap_row(st, row, i, lines, columns, reflow).buffered matches Some(left) ==> !has_image(
            left,
        ),
    decreases row.len(), st.col,
{
    let at_cursor = i == lines - st.row - 1;
    if reflow && !(overflowing(row, columns).len() == 0 && !(at_cursor && st.col > columns)) {
        let tail = cut_tail(row, columns);
        lemma_trimmed_prefix(row.skip(columns));
        lemma_cut_no_image(row, columns);
        if !(ends_in_spacer(tail) && tail.len() == 1) {
            let rest = unspaced(tail);
            let pushed = emitted(st, wrap_flagged(cut_head(row, columns), true));
            if !(rest.len() > 0 && rest.last().wrapline && i >= 1 && rest.len() < columns) {
                lemma_wrap_no_image(
                    line_added(pushed, i, lines, columns),
                    padded(rest, columns),
                    i,
                    lines,
                    columns,
                    reflow,
                );
            }
        }
    }
}

/// Reflowing the rows below index `n` keeps their text.
proof fn lemma_shrink_rows_keep_text(
    st: Reflow,
    rows: Seq<Seq<Square>>,
    n: int,
    lines: int,
    columns: int,
)
    requires
        0 <= n <= rows.len(),
        columns >= MIN_COLUMNS,
        forall|k: int|
            0 <= k < rows.len() ==> (#[trigger] rows[k]).len() >= columns && !has_image(rows[k]),
        st.buffered matches Some(left) ==> !has_image(left),
    ensures
        reflow_text(shrink_rows(st, rows, n, lines, columns, true)) == reflow_text(st) + ink_of(
            rows.take(n).reverse(),
        ),
    decreases n,
{
    if n == 0 {
        assert(rows.take(0).reverse() =~= Seq::<Seq<Square>>::empty());
        assert(reflow_text(st) + Seq::<u32>::empty() =~= reflow_text(st));
    } else {
        let row = rows[n - 1];
        lemma_shrink_row_keeps_text(st, row, n - 1, lines, columns);
        let next = shrink_row(st, row, n - 1, lines, columns, true);
        lemma_shrink_rows_keep_text(next, rows, n - 1, lines, columns);
        let below = rows.take(n - 1).reverse();
        assert(rows.take(n).reverse() =~= seq![row] + below);
        lemma_ink_of_add(seq![row], below);
        lemma_ink_of_push(Seq::empty(), row);
        assert(seq![row] =~= Seq::<Seq<Square>>::empty().push(row));
        assert(Seq::<u32>::empty() + ink(row) =~= ink(row));
        assert(reflow_text(st) + ink(row) + ink_of(below) =~= reflow_text(st) + (ink(row)
            + ink_of(below)));
    }
}

/// Narrowing with reflow keeps the text and its order: what is there afterwards
/// is the end of what was there before, and all of it where the history does
/// not overflow. (A row with an image is clipped and therefore left out.)
pub proof fn law_narrowing_keeps_text(g: GridView, columns: int)
    requires
        grid_wf(g),
        MIN_COLUMNS <= columns < g.columns,
        forall|k: int| 0 <= k < g.rows.len() ==> !has_image(#[trigger] g.rows[k]),
    ensures
        ({
            let made = shrink_rows(
                shrink_start(g, true),
                g.rows,
                g.rows.len() as int,
                g.lines,
                columns,
                true,
            );
            let after = with_fewer_columns(g, true, columns);
            &&& exists|lost: Seq<u32>| #[trigger] (lost + text(after.rows)) == text(g.rows)
            &&& made.out.len() <= g.lines + g.max_scroll_limit ==> text(after.rows) == text(g.rows)
        }),
{
    let start = shrink_start(g, true);
    let n = g.rows.len() as int;
    lemma_shrink_rows_keep_text(start, g.rows, n, g.lines, columns);
    let made = shrink_rows(start, g.rows, n, g.lines, columns, true);
    assert(g.rows.take(n) =~= g.rows);
    assert(reflow_text(start) =~= Seq::<u32>::empty());
    assert(Seq::<u32>::empty() + text(g.rows) =~= text(g.rows));
    lemma_shrink_rows(start, g.rows, n, g.lines, columns, true);
    assert(ink_of(made.out) + Seq::<u32>::empty() =~= ink_of(made.out));
    let after = with_fewer_columns(g, true, columns);
    let keep = after.rows.len() as int;
    let cut = made.out.len() - keep;
    assert(made.out =~= made.out.take(cut) + made.out.skip(cut));
    lemma_ink_of_add(made.out.take(cut), made.out.skip(cut));
    assert(after.rows.reverse() =~= made.out.skip(cut));
    let lost = ink_of(made.out.take(cut));
    assert(lost + text(after.rows) == text(g.rows));
    if made.out.len() <= g.lines + g.max_scroll_limit {
        assert(made.out.skip(0) =~= made.out);
    }
}

/// Pulling cells up keeps the text.
proof fn lemma_grow_row_keeps_text(
    st: Merge,
    row: Seq<Square>,
    i: int,
    lines: int,
    columns: int,
    reflow: bool,
)
    requires
        row.len() > 0,
    ensures
        ink_of(grow_row(st, row, i, lines, columns, reflow).out) == ink_of(st.out) + ink(row),
{
    if st.out.len() == 0 || !takes_cells(st.out.last(), columns, reflow) || has_image(row)
        || has_image(st.out.last()) {
        lemma_ink_of_push(st.out, row);
    } else {
        let last = st.out.last();
        let init = st.out.drop_last();
        let n = pulled(last, row, columns);
        let rest = row.skip(n);
        let full = filled(last, row, columns);
        let flagged = wrap_flagged(last, false);
        lemma_ink_flagged(last, false);
        assert(ink(opened(last)) == ink(last));
        let cells = opened(last) + row.take(n);
        lemma_ink_add(opened(last), row.take(n));
        if cuts_wide(last, row, columns) {
            assert(full.drop_last() =~= cells);
        }
        assert(ink(full) == ink(last) + ink(row.take(n)));
        lemma_ink_add(row.take(n), rest);
        assert(row.take(n) + rest =~= row);
        assert(st.out =~= init.push(last));
        lemma_ink_of_push(init, full);
        lemma_ink_flagged(full, true);
        lemma_ink_of_push(init, wrap_flagged(full, true));
        lemma_ink_of_push(init.push(wrap_flagged(full, true)), rest);
        assert(ink_of(init) + (ink(last) + ink(row.take(n))) + ink(rest) =~= ink_of(init) + ink(
            last,
        ) + (ink(row.take(n)) + ink(rest)));
        if is_clear(rest) {
            assert forall|k: int| 0 <= k < rest.len() implies !has_ink(#[trigger] rest[k]) by {
                assert(rest[k].spec_is_empty());
            }
            lemma_no_ink(rest);
            assert(ink_of(init) + (ink(last) + ink(row.take(n))) + Seq::<u32>::empty() =~= ink_of(
                init,
            ) + (ink(last) + ink(row.take(n))));
        }
    }
}

proof fn lemma_grow_rows_keep_text(
    st: Merge,
    rows: Seq<Seq<Square>>,
    n: int,
    lines: int,
    columns: int,
    reflow: bool,
)
    requires
        0 <= n <= rows.len(),
        forall|k: int| 0 <= k < rows.len() ==> (#[trigger] rows[k]).len() > 0,
    ensures
        ink_of(grow_rows(st, rows, n, lines, columns, reflow).out) == ink_of(st.out) + ink_of(
            rows.take(n).reverse(),
        ),
    decreases n,
{
    if n == 0 {
        assert(rows.take(0).reverse() =~= Seq::<Seq<Square>>::empty());
        assert(ink_of(st.out) + Seq::<u32>::empty() =~= ink_of(st.out));
    } else {
        let row = rows[n - 1];
        lemma_grow_row_keeps_text(st, row, n - 1, lines, columns, reflow);
        let next = grow_row(st, row, n - 1, lines, columns, reflow);
        lemma_grow_rows_keep_text(next, rows, n - 1, lines, columns, reflow);
        let below = rows.take(n - 1).reverse();
        assert(rows.take(n).reverse() =~= seq![row] + below);
        lemma_ink_of_add(seq![row], below);
        lemma_ink_of_push(Seq::empty(), row);
        assert(seq![row] =~= Seq::<Seq<Square>>::empty().push(row));
        assert(Seq::<u32>::empty() + ink(row) =~= ink(row));
        assert(ink_of(st.out) + ink(row) + ink_of(below) =~= ink_of(st.out) + (ink(row) + ink_of(
            below,
        )));
    }
}

proof fn lemma_recovered_ink(row: Seq<Square>, spans: Seq<(u16, int)>, n: int, from: int)
    ensures
        recovered(row, spans, n, from).len() == row.len(),
        forall|k: int|
            0 <= k < row.len() ==> (#[trigger] recovered(row, spans, n, from)[k]).content
                == row[k].content && recovered(row, spans, n, from)[k].wide == row[k].wide,
    decreases n,
{
    if n > 0 {
        lemma_recovered_ink(row, spans, n - 1, from);
    }
}

proof fn lemma_ink_widened(row: Seq<Square>, columns: int, extras: Seq<(u64, ImageSpan)>)
    ensures
        ink(widened(row, columns, extras)) == ink(row),
{
    if row.len() < columns {
        lemma_ink_padded(row, columns);
        let wide = padded(row, columns);
        if row.len() > 0 {
            let spans = reaching(wide, row.len() as int, row.len() as int, extras);
            lemma_recovered_ink(wide, spans, spans.len() as int, row.len() as int);
            lemma_same_ink(recovered(wide, spans, spans.len() as int, row.len() as int), wide);
        }
    }
}

/// Rows with the same text each have the same text together.
proof fn lemma_ink_of_same(a: Seq<Seq<Square>>, b: Seq<Seq<Square>>)
    requires
        a.len() == b.len(),
        forall|k: int| 0 <= k < a.len() ==> ink(#[trigger] a[k]) == ink(b[k]),
    ensures
        ink_of(a) == ink_of(b),
    decreases a.len(),
{
    if a.len() > 0 {
        assert forall|k: int| 0 <= k < a.drop_last().len() implies ink(
            #[trigger] a.drop_last()[k],
        ) == ink(b.drop_last()[k]) by {
            assert(a.drop_last()[k] == a[k]);
        }
        lemma_ink_of_same(a.drop_last(), b.drop_last());
        assert(ink(a[a.len() - 1]) == ink(b[b.len() - 1]));
    }
}

proof fn lemma_blank_rows_ink(n: int, columns: int)
    requires
        n >= 0,
    ensures
        ink_of(blank_rows(n, columns)) == Seq::<u32>::empty(),
    decreases n,
{
    if n > 0 {
        lemma_blank_rows_ink(n - 1, columns);
        assert(blank_rows(n, columns).drop_last() =~= blank_rows(n - 1, columns));
        lemma_no_ink(blank_row(columns));
    }
}

/// Widening keeps the text and its order: what is there afterwards is the
/// beginning of what was there before, and all of it unless rows below the
/// cursor had to go to keep the cursor in place.
pub proof fn law_widening_keeps_text(g: GridView, reflow: bool, columns: int)
    requires
        grid_wf(g),
        g.lines <= usize::MAX,
        g.columns < columns,
    ensures
        ({
            let merged = grow_rows(
                grow_start(g, reflow),
                g.rows,
                g.rows.len() as int,
                g.lines,
                columns,
                reflow,
            );
            let after = with_more_columns(g, reflow, columns);
            &&& exists|lost: Seq<u32>| #[trigger] (text(after.rows) + lost) == text(g.rows)
            &&& merged.cursor_line_delta == 0 ==> text(after.rows) == text(g.rows)
        }),
{
    let n = g.rows.len() as int;
    let start = grow_start(g, reflow);
    lemma_grow_rows_keep_text(start, g.rows, n, g.lines, columns, reflow);
    assert(g.rows.take(n) =~= g.rows);
    let merged = grow_rows(start, g.rows, n, g.lines, columns, reflow);
    assert(Seq::<u32>::empty() + text(g.rows) =~= text(g.rows));
    let full = viewport_filled(merged, g.lines, columns);
    if merged.out.len() < g.lines {
        let fresh = blank_rows(g.lines - merged.out.len(), columns);
        lemma_ink_of_add(merged.out, fresh);
        lemma_blank_rows_ink(g.lines - merged.out.len(), columns);
        assert(ink_of(merged.out) + Seq::<u32>::empty() =~= ink_of(merged.out));
    }
    let done = cursor_pulled(full, g.lines);
    let after = with_more_columns(g, reflow, columns);
    let narrow = done.out.reverse();
    assert forall|k: int| 0 <= k < done.out.len() implies ink(#[trigger] after.rows.reverse()[k])
        == ink(done.out[k]) by {
        let j = done.out.len() - 1 - k;
        assert(after.rows[j] == widened(narrow[j], columns, g.extras));
        assert(narrow[j] == done.out[k]);
        lemma_ink_widened(narrow[j], columns, g.extras);
    }
    lemma_ink_of_same(after.rows.reverse(), done.out);
    let keep = done.out.len() as int;
    if full.cursor_line_delta != 0 {
        lemma_grow_rows_cursor(start, g.rows, n, g.lines, columns, reflow);
        lemma_cut_is_prefix(full, g.lines, done);
        let lost = ink_of(full.out.skip(keep));
        assert(full.out =~= full.out.take(keep) + full.out.skip(keep));
        lemma_ink_of_add(full.out.take(keep), full.out.skip(keep));
        assert(text(after.rows) + lost == text(g.rows));
    } else {
        assert(text(after.rows) + Seq::<u32>::empty() =~= text(g.rows));
    }
}

/// A position further back is not further down.
proof fn lemma_back_by(row: int, col: int, n: int, columns: int)
    requires
        columns > 0,
        row >= 0,
    ensures
        0 <= back_by(row, col, n, columns).0 <= row,
{
    let a = n + columns - 1 - col;
    assert(a > 0 ==> a / columns >= 0) by (nonlinear_arith)
        requires
            columns > 0,
    ;
}

/// While rows are joined the cursor stays in the viewport and moves up only.
pub(crate) proof fn lemma_grow_rows_cursor(
    st: Merge,
    rows: Seq<Seq<Square>>,
    n: int,
    lines: int,
    columns: int,
    reflow: bool,
)
    requires
        0 <= n <= rows.len(),
        columns > 0,
        lines <= usize::MAX,
        st.cursor.row < lines,
        st.cursor_line_delta >= 0,
    ensures
        grow_rows(st, rows, n, lines, columns, reflow).cursor.row < lines,
        grow_rows(st, rows, n, lines, columns, reflow).cursor_line_delta >= 0,
    decreases n,
{
    if n > 0 {
        let row = rows[n - 1];
        let next = grow_row(st, row, n - 1, lines, columns, reflow);
        if st.out.len() > 0 {
            let last = st.out.last();
            let back = moved_back(last, row, columns);
            let first = back_by(st.cursor.row as int, st.cursor.col as int, back, columns);
            lemma_back_by(st.cursor.row as int, st.cursor.col as int, back, columns);
            lemma_back_by(first.0, first.1, 1, columns);
        }
        lemma_grow_rows_cursor(next, rows, n - 1, lines, columns, reflow);
    }
}

/// Moving the cursor only takes rows from the end.
pub(crate) proof fn lemma_cut_is_prefix(full: Merge, lines: int, done: Merge)
    requires
        done == cursor_pulled(full, lines),
        full.out.len() >= lines,
    ensures
        full.cursor_line_delta > 0 && full.cursor.row < lines ==> done.out.len()
            <= full.out.len() && done.out == full.out.take(done.out.len() as int),
{
}

/// A row with an image is never wrapped: it is cut where the grid ends, and
/// nothing of it flows on.
pub proof fn law_a_row_with_an_image_is_cut(
    st: Reflow,
    row: Seq<Square>,
    i: int,
    lines: int,
    columns: int,
    reflow: bool,
)
    requires
        has_image(row),
    ensures
        shrink_row(st, row, i, lines, columns, reflow).out.last() == fitting(row, columns),
        shrink_row(st, row, i, lines, columns, reflow).buffered is None,
{
}

/// An image that reaches far enough is found.
pub(crate) proof fn lemma_reaching_finds(
    row: Seq<Square>,
    n: int,
    from: int,
    extras: Seq<(u64, ImageSpan)>,
    j: int,
    id: u16,
) -> (k: int)
    requires
        0 <= j < n <= row.len(),
        row[j].shows_image(),
        row[j].extras_id == Some(id),
        lookup(extras, id as u64) is Some,
        span_end(lookup(extras, id as u64)->0) > from,
    ensures
        0 <= k < reaching(row, n, from, extras).len(),
        reaching(row, n, from, extras)[k] == (id, span_end(lookup(extras, id as u64)->0)),
    decreases n,
{
    let found = reaching(row, n - 1, from, extras);
    lemma_reaching_known(row, n - 1, from, extras);
    if j == n - 1 {
        if forall|k: int| 0 <= k < found.len() ==> (#[trigger] found[k]).0 != id {
            found.len() as int
        } else {
            let k = choose|k: int| 0 <= k < found.len() && (#[trigger] found[k]).0 == id;
            k
        }
    } else {
        lemma_reaching_finds(row, n - 1, from, extras, j, id)
    }
}

/// What is found is an image of the row, with the column it reaches to.
pub(crate) proof fn lemma_reaching_known(
    row: Seq<Square>,
    n: int,
    from: int,
    extras: Seq<(u64, ImageSpan)>,
)
    requires
        n <= row.len(),
    ensures
        forall|k: int|
            0 <= k < reaching(row, n, from, extras).len() ==> {
                let found = #[trigger] reaching(row, n, from, extras)[k];
                &&& lookup(extras, found.0 as u64) is Some
                &&& found.1 == span_end(lookup(extras, found.0 as u64)->0)
                &&& exists|j: int|
                    0 <= j < n && (#[trigger] row[j]).shows_image() && row[j].extras_id == Some(
                        found.0,
                    )
            },
    decreases n,
{
    if n > 0 {
        lemma_reaching_known(row, n - 1, from, extras);
        let before = reaching(row, n - 1, from, extras);
        let after = reaching(row, n, from, extras);
        assert forall|k: int| 0 <= k < after.len() implies {
            let found = #[trigger] after[k];
            &&& lookup(extras, found.0 as u64) is Some
            &&& found.1 == span_end(lookup(extras, found.0 as u64)->0)
            &&& exists|j: int|
                0 <= j < n && (#[trigger] row[j]).shows_image() && row[j].extras_id == Some(found.0)
        } by {
            if k < before.len() {
                assert(after[k] == before[k]);
            } else {
                assert(row[n - 1].shows_image());
            }
        }
    }
}

/// A column that an image reaches is covered again, by one of the images that
/// reach it.
proof fn lemma_recovered_covers(
    row: Seq<Square>,
    spans: Seq<(u16, int)>,
    n: int,
    from: int,
    c: int,
)
    requires
        0 <= n <= spans.len(),
        0 <= from <= c < row.len(),
    ensures
        recovered(row, spans, n, from).len() == row.len(),
        recovered(row, spans, n, from)[c].bg_only == row[c].bg_only,
        (exists|k: int| 0 <= k < n && (#[trigger] spans[k]).1 > c) ==> {
            let cell = recovered(row, spans, n, from)[c];
            &&& cell.graphics
            &&& exists|k: int| 0 <= k < n && cell.extras_id == Some((#[trigger] spans[k]).0)
        },
    decreases n,
{
    if n > 0 {
        lemma_recovered_covers(row, spans, n - 1, from, c);
        let cell = recovered(row, spans, n, from)[c];
        if c < spans[n - 1].1 {
            assert(cell.extras_id == Some(spans[n - 1].0));
        } else if exists|k: int| 0 <= k < n && (#[trigger] spans[k]).1 > c {
            let k = choose|k: int| 0 <= k < n && (#[trigger] spans[k]).1 > c;
            assert(k < n - 1);
            assert(cell == recovered(row, spans, n - 1, from)[c]);
        }
    }
}

/// A narrower grid only hides the columns of an image: where the grid is made
/// wider again, every column that an image of the row reaches shows one again,
/// and that very image where the row has no other.
pub proof fn law_a_hidden_image_returns(
    row: Seq<Square>,
    narrow: int,
    columns: int,
    extras: Seq<(u64, ImageSpan)>,
    j: int,
    id: u16,
    c: int,
)
    requires
        0 <= j < narrow < row.len(),
        row[j].shows_image(),
        row[j].extras_id == Some(id),
        lookup(extras, id as u64) is Some,
        narrow <= c < columns,
        c < span_end(lookup(extras, id as u64)->0),
    ensures
        ({
            let cell = widened(fitting(row, narrow), columns, extras)[c];
            &&& cell.shows_image()
            &&& (forall|i: int|
                0 <= i < narrow && (#[trigger] row[i]).shows_image() ==> row[i].extras_id == Some(
                    id,
                )) ==> cell.extras_id == Some(id)
        }),
{
    let cut = fitting(row, narrow);
    let wide = padded(cut, columns);
    let spans = reaching(wide, narrow, narrow, extras);
    assert(cut.len() == narrow);
    assert forall|i: int| 0 <= i < narrow implies #[trigger] wide[i] == row[i] by {
        assert(wide[i] == cut[i]);
    }
    assert(wide[j] == row[j]);
    let k = lemma_reaching_finds(wide, narrow, narrow, extras, j, id);
    lemma_reaching_known(wide, narrow, narrow, extras);
    assert(spans[k].1 > c);
    lemma_recovered_covers(wide, spans, spans.len() as int, narrow, c);
    let cell = recovered(wide, spans, spans.len() as int, narrow)[c];
    assert(!wide[c].bg_only);
    assert(widened(cut, columns, extras)[c] == cell);
    let m = choose|m: int| 0 <= m < spans.len() && cell.extras_id == Some((#[trigger] spans[m]).0);
    assert(lookup(extras, spans[m].0 as u64) is Some);
    let i = choose|i: int|
        0 <= i < narrow && (#[trigger] wide[i]).shows_image() && wide[i].extras_id == Some(
            spans[m].0,
        );
    assert(wide[i] == row[i]);
}

} // verus!
