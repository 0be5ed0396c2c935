//! Reflow to a wider grid, and the resize that combines all four directions.
use crate::grid::{
    blank_rows, grid_wf, has_image, is_clear, leading_spacer, make_blank_rows, min_int, pad_row,
    padded, rows_view, with_fewer_lines, with_more_lines, wrap_flagged, Cursor, Grid, GridView,
    ImageSpan, Square, Wide, MIN_COLUMNS, MIN_LINES,
};
use crate::grid_shrink::{flag_wrap, reverse_rows, row_has_graphics, with_fewer_columns};
use crate::table::lookup;
use vstd::prelude::*;

verus! {

/// A reflow under way: the rows made so far, oldest first, the cursor, how far
/// it moves up, and the scroll position.
#[verifier::ext_equal]
pub struct Merge {
    pub out: Seq<Seq<Square>>,
    pub cursor: Cursor,
    pub cursor_line_delta: int,
    pub display_offset: int,
}

/// Whether cells may be pulled up into `last`: a row shorter than the new width
/// that goes on in the next one.
pub open spec fn takes_cells(last: Seq<Square>, columns: int, reflow: bool) -> bool {
    reflow && 0 < last.len() < columns && last.last().wrapline
}

/// The row to pull into, without its wrap flag and a spacer that stood in for a
/// wrapped wide character.
pub open spec fn opened(last: Seq<Square>) -> Seq<Square> {
    let flagged = wrap_flagged(last, false);
    if flagged.last().wide == Wide::LeadingSpacer {
        flagged.drop_last()
    } else {
        flagged
    }
}

/// How many cells of `row` have room behind `last`.
pub open spec fn room(last: Seq<Square>, row: Seq<Square>, columns: int) -> int {
    min_int(row.len() as int, columns - opened(last).len())
}

/// Whether the last cell with room is a wide character, which must stay with
/// its spacer.
pub open spec fn cuts_wide(last: Seq<Square>, row: Seq<Square>, columns: int) -> bool {
    row[room(last, row, columns) - 1].wide == Wide::Wide
}

/// How many cells are pulled up.
pub open spec fn pulled(last: Seq<Square>, row: Seq<Square>, columns: int) -> int {
    if cuts_wide(last, row, columns) {
        room(last, row, columns) - 1
    } else {
        room(last, row, columns)
    }
}

/// How far a cursor in `row` moves back.
pub open spec fn moved_back(last: Seq<Square>, row: Seq<Square>, columns: int) -> int {
    columns - opened(last).len() - if cuts_wide(last, row, columns) {
        1int
    } else {
        0int
    }
}

/// The row that cells were pulled into.
pub open spec fn filled(last: Seq<Square>, row: Seq<Square>, columns: int) -> Seq<Square> {
    let cells = opened(last) + row.take(pulled(last, row, columns));
    if cuts_wide(last, row, columns) {
        cells.push(leading_spacer())
    } else {
        cells
    }
}

/// A position `n` cells before `(row, col)` in a grid of the given width; the
/// top left corner where that leaves the viewport.
pub open spec fn back_by(row: int, col: int, n: int, columns: int) -> (int, int) {
    let up = if n + columns - 1 <= col {
        0
    } else {
        (n + columns - 1 - col) / columns
    };
    if row < up {
        (0, 0)
    } else {
        (row - up, (columns + col - n % columns) % columns)
    }
}

/// The next row of the old grid, at index `i` from the bottom.
pub open spec fn grow_row(
    st: Merge,
    row: Seq<Square>,
    i: int,
    lines: int,
    columns: int,
    reflow: bool,
) -> Merge {
    if st.out.len() == 0 || !takes_cells(st.out.last(), columns, reflow) || has_image(row)
        || has_image(st.out.last()) {
        Merge { out: st.out.push(row), ..st }
    } else {
        let last = st.out.last();
        let rest = row.skip(pulled(last, row, columns));
        let merged = Merge {
            out: st.out.drop_last().push(filled(last, row, columns)),
            ..st
        };
        let kept = Merge {
            out: st.out.drop_last().push(wrap_flagged(filled(last, row, columns), true)).push(
                rest,
            ),
            ..st
        };
        let cursor_line = lines - st.cursor.row - 1;
        if i == cursor_line {
            let first = back_by(
                st.cursor.row as int,
                st.cursor.col as int,
                moved_back(last, row, columns),
                columns,
            );
            let clamps = first.1 == 0 && is_clear(rest);
            let target = if clamps {
                back_by(first.0, first.1, 1, columns)
            } else {
                first
            };
            let cursor = Cursor {
                col: target.1 as usize,
                should_wrap: st.cursor.should_wrap || clamps,
                ..st.cursor
            };
            let delta = st.cursor.row - target.0;
            if delta != 0 && is_clear(rest) {
                Merge { cursor, ..merged }
            } else {
                Merge { cursor, cursor_line_delta: st.cursor_line_delta + delta, ..kept }
            }
        } else if is_clear(rest) {
            Merge {
                display_offset: if i < st.display_offset {
                    st.display_offset - 1
                } else {
                    st.display_offset
                },
                cursor: if i < cursor_line {
                    Cursor { row: (st.cursor.row + 1) as usize, ..st.cursor }
                } else {
                    st.cursor
                },
                ..merged
            }
        } else {
            kept
        }
    }
}

/// The rows below index `n`, oldest first.
pub open spec fn grow_rows(
    st: Merge,
    rows: Seq<Seq<Square>>,
    n: int,
    lines: int,
    columns: int,
    reflow: bool,
) -> Merge
    decreases n,
{
    if n <= 0 {
        st
    } else {
        grow_rows(
            grow_row(st, rows[n - 1], n - 1, lines, columns, reflow),
            rows,
            n - 1,
            lines,
            columns,
            reflow,
        )
    }
}

/// The reflow before the first row: a cursor waiting to wrap stands outside.
pub open spec fn grow_start(g: GridView, reflow: bool) -> Merge {
    Merge {
        out: Seq::empty(),
        cursor: if g.cursor.should_wrap && reflow {
            Cursor { col: (g.cursor.col + 1) as usize, should_wrap: false, ..g.cursor }
        } else {
            g.cursor
        },
        cursor_line_delta: 0,
        display_offset: g.display_offset,
    }
}

pub open spec fn up_by(cursor: Cursor, n: int) -> Cursor {
    Cursor {
        row: if cursor.row >= n {
            (cursor.row - n) as usize
        } else {
            0
        },
        ..cursor
    }
}

/// The reflow with at least a viewport of rows.
pub open spec fn viewport_filled(st: Merge, lines: int, columns: int) -> Merge {
    if st.out.len() < lines {
        Merge {
            out: st.out + blank_rows(lines - st.out.len(), columns),
            cursor: up_by(st.cursor, lines - st.out.len()),
            ..st
        }
    } else {
        st
    }
}

/// The cursor moved to its line: rows below it go while there are any, then it
/// moves up.
pub open spec fn cursor_pulled(st: Merge, lines: int) -> Merge {
    let cursor_line = lines - st.cursor.row - 1;
    let available = min_int(cursor_line, st.out.len() - lines);
    let overflow = if st.cursor_line_delta > available {
        st.cursor_line_delta - available
    } else {
        0
    };
    if st.cursor_line_delta != 0 {
        Merge {
            out: st.out.take(st.out.len() + overflow - st.cursor_line_delta),
            cursor: up_by(st.cursor, overflow),
            ..st
        }
    } else {
        st
    }
}

/// The column behind the last one that an image covers.
pub open spec fn span_end(span: ImageSpan) -> int {
    let cell = if span.cell_width == 0 {
        1int
    } else {
        span.cell_width as int
    };
    span.anchor_col + (span.width + cell - 1) / cell
}

/// Images of the first `n` cells that reach behind column `from`, each once.
pub open spec fn reaching(
    row: Seq<Square>,
    n: int,
    from: int,
    extras: Seq<(u64, ImageSpan)>,
) -> Seq<(u16, int)>
    decreases n,
{
    if n <= 0 {
        Seq::empty()
    } else {
        let found = reaching(row, n - 1, from, extras);
        let cell = row[n - 1];
        match cell.extras_id {
            Some(id) => match lookup(extras, id as u64) {
                Some(span) => if cell.shows_image() && span_end(span) > from && (forall|k: int|
                    0 <= k < found.len() ==> (#[trigger] found[k]).0 != id) {
                    found.push((id, span_end(span)))
                } else {
                    found
                },
                None => found,
            },
            None => found,
        }
    }
}

/// A cell covered by an image.
pub open spec fn covered(cell: Square, id: u16) -> Square {
    Square { extras_id: Some(id), graphics: true, ..cell }
}

/// Cells from `from` on covered by the first `n` images as far as each reaches.
pub open spec fn recovered(row: Seq<Square>, spans: Seq<(u16, int)>, n: int, from: int) -> Seq<
    Square,
>
    decreases n,
{
    if n <= 0 {
        row
    } else {
        let before = recovered(row, spans, n - 1, from);
        Seq::new(
            row.len(),
            |c: int|
                if from <= c < spans[n - 1].1 {
                    covered(before[c], spans[n - 1].0)
                } else {
                    before[c]
                },
        )
    }
}

/// A row at its new width, with images shown in full again as far as they reach.
pub open spec fn widened(
    row: Seq<Square>,
    columns: int,
    extras: Seq<(u64, ImageSpan)>,
) -> Seq<Square> {
    if row.len() < columns {
        let wide = padded(row, columns);
        if row.len() == 0 {
            wide
        } else {
            let spans = reaching(wide, row.len() as int, row.len() as int, extras);
            recovered(wide, spans, spans.len() as int, row.len() as int)
        }
    } else {
        row
    }
}

/// The grid with more columns.
pub open spec fn with_more_columns(g: GridView, reflow: bool, columns: int) -> GridView {
    let merged = grow_rows(
        grow_start(g, reflow),
        g.rows,
        g.rows.len() as int,
        g.lines,
        columns,
        reflow,
    );
    let done = cursor_pulled(viewport_filled(merged, g.lines, columns), g.lines);
    let narrow = done.out.reverse();
    GridView {
        rows: Seq::new(narrow.len(), |i: int| widened(narrow[i], columns, g.extras)),
        columns,
        cursor: done.cursor,
        display_offset: min_int(done.display_offset, narrow.len() - g.lines),
        ..g
    }
}

/// The grid at a new size: lines first, then columns.
pub open spec fn resized(g: GridView, reflow: bool, lines: int, columns: int) -> GridView {
    let tall = if g.lines < lines {
        with_more_lines(g, lines)
    } else if g.lines > lines {
        with_fewer_lines(g, lines)
    } else {
        g
    };
    if tall.columns < columns {
        with_more_columns(tall, reflow, columns)
    } else if tall.columns > columns {
        with_fewer_columns(tall, reflow, columns)
    } else {
        tall
    }
}

struct MergeState {
    out: Vec<Vec<Square>>,
    cursor: Cursor,
    cursor_line_delta: usize,
    display_offset: usize,
}

impl View for MergeState {
    type V = Merge;

    closed spec fn view(&self) -> Merge {
        Merge {
            out: rows_view(self.out@),
            cursor: self.cursor,
            cursor_line_delta: self.cursor_line_delta as int,
            display_offset: self.display_offset as int,
        }
    }
}

fn row_is_clear(row: &Vec<Square>) -> (clear: bool)
    ensures
        clear == is_clear(row@),
{
    let mut i: usize = 0;
    while i < row.len()
        invariant
            i <= row.len(),
            forall|j: int| 0 <= j < i ==> (#[trigger] row@[j]).spec_is_empty(),
        decreases row.len() - i,
    {
        if !row[i].is_empty() {
            return false;
        }
        i = i + 1;
    }
    true
}

fn position_back(row: usize, col: usize, n: usize, columns: usize) -> (target: (usize, usize))
    requires
        columns > 0,
        n <= columns,
        col < usize::MAX - columns,
        2 * columns < usize::MAX,
    ensures
        target == (
            back_by(row as int, col as int, n as int, columns as int).0 as usize,
            back_by(row as int, col as int, n as int, columns as int).1 as usize,
        ),
        back_by(row as int, col as int, n as int, columns as int).0 <= row,
        0 <= back_by(row as int, col as int, n as int, columns as int).0,
        0 <= back_by(row as int, col as int, n as int, columns as int).1 < columns,
        target.0 <= row,
        target.1 < columns,
{
    proof {
        let a = n + columns - 1 - col;
        assert(a > 0 ==> 0 <= a / columns as int) by (nonlinear_arith)
            requires
                columns > 0,
        ;
        assert(0 <= (n as int) % (columns as int) < columns) by (nonlinear_arith)
            requires
                columns > 0,
        ;
        let b = columns + col - (n as int) % (columns as int);
        assert(0 <= b % (columns as int) < columns) by (nonlinear_arith)
            requires
                columns > 0,
        ;
    }
    let up: usize = if n + columns - 1 <= col {
        0
    } else {
        (n + columns - 1 - col) / columns
    };
    if row < up {
        (0, 0)
    } else {
        (row - up, (columns + col - n % columns) % columns)
    }
}

/// Pulls cells of `row` up into `last`. Gives what is left of `row` and how far
/// a cursor in it moves back.
fn pull_cells(last: &mut Vec<Square>, row: Vec<Square>, columns: usize) -> (result: (
    Vec<Square>,
    usize,
))
    requires
        0 < old(last)@.len() < columns,
        row@.len() > 0,
    ensures
        final(last)@ == filled(old(last)@, row@, columns as int),
        result.0@ == row@.skip(pulled(old(last)@, row@, columns as int)),
        result.1 == moved_back(old(last)@, row@, columns as int),
        result.1 <= columns,
        0 <= pulled(old(last)@, row@, columns as int) <= row@.len(),
{
    let ghost whole = row@;
    let ghost before = last@;
    flag_wrap(last, false);
    let n: usize = last.len();
    if last[n - 1].wide == Wide::LeadingSpacer {
        let _ = last.pop();
        assert(last@ =~= opened(before));
    }
    assert(last@ == opened(before));
    let space: usize = columns - last.len();
    let len: usize = if row.len() < space {
        row.len()
    } else {
        space
    };
    let wide: bool = row[len - 1].wide == Wide::Wide;
    let take: usize = if wide {
        len - 1
    } else {
        len
    };
    let mut cells = row;
    let rest = cells.split_off(take);
    assert(rest@ =~= whole.skip(take as int));
    assert(cells@ =~= whole.take(take as int));
    last.append(&mut cells);
    if wide {
        let mut spacer = Square::blank();
        spacer.wide = Wide::LeadingSpacer;
        last.push(spacer);
        assert(last@ =~= filled(before, whole, columns as int));
        (rest, space - 1)
    } else {
        assert(last@ =~= filled(before, whole, columns as int));
        (rest, space)
    }
}

impl MergeState {
    fn put(&mut self, row: Vec<Square>)
        ensures
            final(self)@ == (Merge { out: old(self)@.out.push(row@), ..old(self)@ }),
    {
        let ghost before = rows_view(self.out@);
        self.out.push(row);
        assert(rows_view(self.out@) =~= before.push(row@));
        assert(self@ =~= (Merge { out: old(self)@.out.push(row@), ..old(self)@ }));
    }

    fn grow_one(&mut self, row: Vec<Square>, i: usize, lines: usize, columns: usize, reflow: bool)
        requires
            row@.len() > 0,
            old(self).cursor.row < lines,
            old(self).cursor.col < columns,
            columns > 0,
            2 * columns < usize::MAX,
            i == lines - old(self).cursor.row - 1 ==> old(self).cursor_line_delta == 0,
        ensures
            final(self)@ == grow_row(
                old(self)@,
                row@,
                i as int,
                lines as int,
                columns as int,
                reflow,
            ),
            final(self).cursor.row < lines,
            final(self).cursor.col < columns,
            i != lines - old(self).cursor.row - 1 ==> final(self).cursor_line_delta == old(
                self,
            ).cursor_line_delta,
            i == lines - old(self).cursor.row - 1 ==> final(self).cursor_line_delta <= old(
                self,
            ).cursor_line_delta + old(self).cursor.row,
            final(self).cursor.row >= old(self).cursor.row,
            i < lines - old(self).cursor.row - 1 ==> i <= lines - final(self).cursor.row - 1,
            i >= lines - old(self).cursor.row - 1 ==> final(self).cursor.row == old(
                self,
            ).cursor.row,
    {
        let ghost given = row@;
        let ghost st = self@;
        let takes: bool = match self.out.len() {
            0 => false,
            n => {
                let last = &self.out[n - 1];
                reflow && 0 < last.len() && last.len() < columns && last[last.len() - 1].wrapline
                    && !row_has_graphics(&row) && !row_has_graphics(last)
            },
        };
        if !takes {
            self.put(row);
            return ;
        }
        let ghost out_before = rows_view(self.out@);
        if let Some(old_last) = self.out.pop() {
            let mut last = old_last;
            assert(last@ == st.out.last());
            assert(rows_view(self.out@) =~= st.out.drop_last());
            let (rest, back) = pull_cells(&mut last, row, columns);
            let clear: bool = row_is_clear(&rest);
            let cursor_line: usize = lines - self.cursor.row - 1;
            if i == cursor_line {
                let first = position_back(self.cursor.row, self.cursor.col, back, columns);
                let clamps: bool = first.1 == 0 && clear;
                let target = if clamps {
                    position_back(first.0, first.1, 1, columns)
                } else {
                    first
                };
                let delta: usize = self.cursor.row - target.0;
                self.cursor = Cursor {
                    row: self.cursor.row,
                    col: target.1,
                    should_wrap: self.cursor.should_wrap || clamps,
                    template: self.cursor.template,
                };
                if delta != 0 && clear {
                    self.put(last);
                    return ;
                }
                self.cursor_line_delta = self.cursor_line_delta + delta;
            } else if clear {
                if i < self.display_offset {
                    self.display_offset = self.display_offset - 1;
                }
                if i < cursor_line {
                    self.cursor.row = self.cursor.row + 1;
                }
                self.put(last);
                return ;
            }
            flag_wrap(&mut last, true);
            self.put(last);
            self.put(rest);
        }
    }
}

impl MergeState {
    /// All rows of the old grid, oldest first.
    fn grow_all(
        &mut self,
        rows: Vec<Vec<Square>>,
        lines: usize,
        columns: usize,
        reflow: bool,
        before: Ghost<GridView>,
    )
        requires
            rows_view(rows@) == before@.rows,
            lines == before@.lines,
            grid_wf(before@),
            before@.columns < columns,
            2 * columns < usize::MAX,
            old(self)@.out.len() == 0,
            old(self).cursor.row < lines,
            old(self).cursor.col < columns,
            old(self).cursor_line_delta == 0,
        ensures
            final(self)@ == grow_rows(
                old(self)@,
                before@.rows,
                before@.rows.len() as int,
                lines as int,
                columns as int,
                reflow,
            ),
            final(self).cursor.row < lines,
            final(self).cursor.col < columns,
            none_wider(final(self)@.out, columns as int),
            final(self)@.out.len() <= before@.rows.len(),
            final(self)@.display_offset <= old(self)@.display_offset,
            final(self).cursor_line_delta <= lines,
    {
        let mut rows = rows;
        let ghost g = before@;
        let ghost total = g.rows.len();
        assert(rows_view(rows@) =~= g.rows.take(total as int));
        while rows.len() > 0
            invariant
                rows@.len() <= total,
                total == g.rows.len(),
                g.columns < columns,
                forall|k: int|
                    0 <= k < g.rows.len() ==> (#[trigger] g.rows[k]).len() == g.columns,
                g.columns > 0,
                2 * columns < usize::MAX,
                rows_view(rows@) == g.rows.take(rows@.len() as int),
                self.cursor.row < lines,
                self.cursor.col < columns,
                self.cursor_line_delta <= lines,
                rows@.len() > lines - self.cursor.row - 1 ==> self.cursor_line_delta == 0,
                none_wider(self@.out, columns as int),
                self@.out.len() <= total - rows@.len(),
                self.display_offset <= old(self).display_offset,
                grow_rows(
                    old(self)@,
                    g.rows,
                    total as int,
                    lines as int,
                    columns as int,
                    reflow,
                ) == grow_rows(
                    self@,
                    g.rows,
                    rows@.len() as int,
                    lines as int,
                    columns as int,
                    reflow,
                ),
            decreases rows@.len(),
        {
            let ghost n = rows@.len();
            let ghost seen = rows_view(rows@);
            if let Some(row) = rows.pop() {
                let i: usize = rows.len();
                proof {
                    assert(row@ == seen[n - 1]);
                    assert(row@ == g.rows[n - 1]);
                    assert(rows_view(rows@) =~= g.rows.take(n - 1));
                    lemma_grow_row(
                        self@,
                        row@,
                        i as int,
                        lines as int,
                        columns as int,
                        reflow,
                    );
                }
                self.grow_one(row, i, lines, columns, reflow);
            }
        }
    }

    /// At least a viewport of rows.
    fn fill_viewport(&mut self, lines: usize, columns: usize)
        requires
            none_wider(old(self)@.out, columns as int),
            old(self).cursor.row < lines,
        ensures
            final(self)@ == viewport_filled(old(self)@, lines as int, columns as int),
            none_wider(final(self)@.out, columns as int),
            final(self)@.out.len() >= lines,
            final(self)@.out.len() <= old(self)@.out.len() || final(self)@.out.len() == lines,
            final(self).cursor.row < lines,
            final(self).cursor.col == old(self).cursor.col,
            final(self).cursor_line_delta == old(self).cursor_line_delta,
            final(self).display_offset == old(self).display_offset,
    {
        let ghost made = rows_view(self.out@);
        if self.out.len() < lines {
            let missing: usize = lines - self.out.len();
            self.cursor.row = if self.cursor.row >= missing {
                self.cursor.row - missing
            } else {
                0
            };
            let mut fresh = make_blank_rows(missing, columns);
            let ghost blanks = rows_view(fresh@);
            self.out.append(&mut fresh);
            assert(rows_view(self.out@) =~= made + blanks);
        }
        assert(self@ =~= viewport_filled(old(self)@, lines as int, columns as int));
        assert forall|k: int| 0 <= k < self@.out.len() implies (#[trigger] self@.out[k]).len()
            <= columns by {
            if k < made.len() {
                assert(self@.out[k] == made[k]);
            }
        }
    }

    /// Moves the cursor to its line.
    fn pull_cursor(&mut self, lines: usize, columns: usize)
        requires
            old(self)@.out.len() >= lines,
            old(self).cursor.row < lines,
            none_wider(old(self)@.out, columns as int),
        ensures
            final(self)@ == cursor_pulled(old(self)@, lines as int),
            none_wider(final(self)@.out, columns as int),
            final(self)@.out.len() >= lines,
            final(self)@.out.len() <= old(self)@.out.len(),
            final(self).cursor.row < lines,
            final(self).cursor.col == old(self).cursor.col,
    {
        let ghost made = rows_view(self.out@);
        if self.cursor_line_delta != 0 {
            let cursor_line: usize = lines - self.cursor.row - 1;
            let below: usize = self.out.len() - lines;
            let available: usize = if cursor_line < below {
                cursor_line
            } else {
                below
            };
            let overflow: usize = if self.cursor_line_delta > available {
                self.cursor_line_delta - available
            } else {
                0
            };
            let keep: usize = self.out.len() - (self.cursor_line_delta - overflow);
            self.out.truncate(keep);
            assert(rows_view(self.out@) =~= made.take(keep as int));
            self.cursor.row = if self.cursor.row >= overflow {
                self.cursor.row - overflow
            } else {
                0
            };
        }
        assert(self@ =~= cursor_pulled(old(self)@, lines as int));
        assert forall|k: int| 0 <= k < self@.out.len() implies (#[trigger] self@.out[k]).len()
            <= columns by {
            assert(self@.out[k] == made[k]);
        }
    }
}

/// Whether no row is wider than the new width.
pub open spec fn none_wider(out: Seq<Seq<Square>>, columns: int) -> bool {
    forall|k: int| 0 <= k < out.len() ==> (#[trigger] out[k]).len() <= columns
}

proof fn lemma_filled_len(last: Seq<Square>, row: Seq<Square>, columns: int)
    requires
        0 < last.len() < columns,
        row.len() > 0,
    ensures
        filled(last, row, columns).len() <= columns,
        0 <= pulled(last, row, columns) <= row.len(),
{
}

proof fn lemma_grow_row(
    st: Merge,
    row: Seq<Square>,
    i: int,
    lines: int,
    columns: int,
    reflow: bool,
)
    requires
        none_wider(st.out, columns),
        0 < row.len() <= columns,
    ensures
        none_wider(grow_row(st, row, i, lines, columns, reflow).out, columns),
        grow_row(st, row, i, lines, columns, reflow).out.len() <= st.out.len() + 1,
        grow_row(st, row, i, lines, columns, reflow).display_offset <= st.display_offset,
{
    let after = grow_row(st, row, i, lines, columns, reflow);
    if st.out.len() > 0 && takes_cells(st.out.last(), columns, reflow) {
        lemma_filled_len(st.out.last(), row, columns);
    }
    assert forall|k: int| 0 <= k < after.out.len() implies (#[trigger] after.out[k]).len()
        <= columns by {
        if k < st.out.len() - 1 {
            assert(after.out[k] == st.out[k]);
        } else if k == st.out.len() - 1 {
            assert(st.out[k].len() <= columns);
        }
    }
}

impl Grid {
    /// Covers freshly grown cells again with the images that reach into them:
    /// narrowing clips only the cells, never the picture.
    fn recover_graphic_cells(&self, row: &mut Vec<Square>, from: usize)
        requires
            0 < from <= old(row)@.len(),
        ensures
            ({
                let spans = reaching(old(row)@, from as int, from as int, self@.extras);
                final(row)@ == recovered(old(row)@, spans, spans.len() as int, from as int)
            }),
    {
        let ghost before = row@;
        let mut spans: Vec<(u16, usize)> = Vec::new();
        let mut i: usize = 0;
        while i < from
            invariant
                i <= from,
                from <= row@.len(),
                row@ == before,
                spans_view(spans@) == reaching(before, i as int, from as int, self@.extras),
            decreases from - i,
        {
            let cell = row[i];
            let ghost found = spans_view(spans@);
            if let Some(id) = cell.extras_id {
                if let Some(span) = self.extras.get(id as u64) {
                    let end: usize = image_end(*span);
                    if cell.graphics && !cell.bg_only && end > from && !knows(&spans, id) {
                        spans.push((id, end));
                        assert(spans_view(spans@) =~= found.push((id, end as int)));
                    }
                }
            }
            i = i + 1;
        }
        let ghost all = spans_view(spans@);
        let mut k: usize = 0;
        while k < spans.len()
            invariant
                k <= spans.len(),
                row@.len() == before.len(),
                from <= row@.len(),
                all == spans_view(spans@),
                row@ == recovered(before, all, k as int, from as int),
            decreases spans.len() - k,
        {
            let (id, end) = spans[k];
            let ghost start = row@;
            assert(all[k as int] == (id, end as int));
            let mut c: usize = from;
            while c < row.len() && c < end
                invariant
                    from <= c <= row@.len(),
                    row@.len() == start.len(),
                    forall|j: int|
                        0 <= j < start.len() ==> #[trigger] row@[j] == if from <= j < c && j < end {
                            covered(start[j], id)
                        } else {
                            start[j]
                        },
                decreases row.len() - c,
            {
                let mut cell = row[c];
                cell.extras_id = Some(id);
                cell.graphics = true;
                row.set(c, cell);
                c = c + 1;
            }
            assert(row@ =~= recovered(before, all, k + 1, from as int));
            k = k + 1;
        }
    }

    /// Every row at the new width.
    fn widen_rows(&self, out: &mut Vec<Vec<Square>>, columns: usize)
        ensures
            rows_view(final(out)@) == Seq::new(
                old(out)@.len(),
                |i: int| widened(rows_view(old(out)@)[i], columns as int, self@.extras),
            ),
    {
        let ghost narrow = rows_view(out@);
        let mut j: usize = 0;
        while j < out.len()
            invariant
                j <= out.len(),
                out@.len() == narrow.len(),
                forall|k: int|
                    0 <= k < narrow.len() ==> (#[trigger] out@[k])@ == if k < j {
                        widened(narrow[k], columns as int, self@.extras)
                    } else {
                        narrow[k]
                    },
            decreases out.len() - j,
        {
            let len: usize = out[j].len();
            if len < columns {
                let mut row: Vec<Square> = Vec::new();
                std::mem::swap(&mut row, &mut out[j]);
                pad_row(&mut row, columns);
                if len > 0 {
                    self.recover_graphic_cells(&mut row, len);
                }
                out.set(j, row);
            }
            j = j + 1;
        }
        assert(rows_view(out@) =~= Seq::new(
            narrow.len(),
            |i: int| widened(narrow[i], columns as int, self@.extras),
        ));
    }

    /// Widens every row, reflowing where `reflow` asks for it.
    pub(crate) fn grow_columns(&mut self, reflow: bool, columns: usize)
        requires
            old(self).wf(),
            old(self).columns < columns,
            2 * columns < usize::MAX,
            old(self).lines + old(self).max_scroll_limit <= usize::MAX,
        ensures
            final(self)@ == with_more_columns(old(self)@, reflow, columns as int),
            final(self).wf(),
    {
        let ghost before = self@;
        let lines: usize = self.lines;
        let mut rows: Vec<Vec<Square>> = Vec::new();
        std::mem::swap(&mut rows, &mut self.rows);
        let mut cursor = self.cursor;
        if cursor.should_wrap && reflow {
            cursor.should_wrap = false;
            cursor.col = cursor.col + 1;
        }
        let mut st = MergeState {
            out: Vec::new(),
            cursor,
            cursor_line_delta: 0,
            display_offset: self.display_offset,
        };
        assert(st@ =~= grow_start(before, reflow));
        st.grow_all(rows, lines, columns, reflow, Ghost(before));
        st.fill_viewport(lines, columns);
        st.pull_cursor(lines, columns);
        let ghost done = st@;
        let MergeState { mut out, cursor, cursor_line_delta: _, display_offset } = st;
        let ghost made = rows_view(out@);
        reverse_rows(&mut out);
        let ghost narrow = rows_view(out@);
        assert(narrow =~= made.reverse());
        self.widen_rows(&mut out, columns);
        assert(rows_view(out@) =~= Seq::new(
            narrow.len(),
            |i: int| widened(narrow[i], columns as int, before.extras),
        ));
        assert(rows_view(out@).len() == narrow.len());
        self.rows = out;
        self.columns = columns;
        self.cursor = cursor;
        let history: usize = self.rows.len() - lines;
        self.display_offset = if display_offset < history {
            display_offset
        } else {
            history
        };
        proof {
            assert(self@ =~= with_more_columns(before, reflow, columns as int));
            assert forall|k: int| 0 <= k < self@.rows.len() implies (#[trigger] self@.rows[k]).len()
                == columns by {
                assert(narrow[k] == made[made.len() - 1 - k]);
                assert(narrow[k].len() <= columns);
                assert(self@.rows[k] == widened(narrow[k], columns as int, before.extras));
                let wide = padded(narrow[k], columns as int);
                let spans = reaching(
                    wide,
                    narrow[k].len() as int,
                    narrow[k].len() as int,
                    before.extras,
                );
                lemma_recovered_len(wide, spans, spans.len() as int, narrow[k].len() as int);
            }
        }
    }

    /// Changes the size of the grid. With `reflow`, lines are wrapped and
    /// joined to fit the new width; without it, rows are clipped.
    pub fn resize(&mut self, reflow: bool, lines: usize, columns: usize)
        requires
            old(self).wf(),
            lines >= MIN_LINES,
            columns >= MIN_COLUMNS,
            2 * columns < usize::MAX,
            2 * old(self).columns < usize::MAX,
            old(self).lines + old(self).max_scroll_limit <= usize::MAX,
            lines + old(self).max_scroll_limit <= usize::MAX,
        ensures
            final(self).wf(),
            final(self)@ == resized(old(self)@, reflow, lines as int, columns as int),
            final(self).lines == lines,
            final(self).columns == columns,
            forall|i: int|
                0 <= i < final(self).rows@.len() ==> (#[trigger] final(self).rows@[i])@.len()
                    == columns,
            final(self).cursor.row < lines,
            final(self).cursor.col < columns,
            final(self).display_offset <= final(self).rows@.len() - lines,
            final(self).cursor.template == old(self).cursor.template,
            final(self).saved_cursor.template == old(self).saved_cursor.template,
            old(self).lines == lines && old(self).columns == columns ==> final(self)@
                == old(self)@,
    {
        proof {
            law_a_resize_keeps_the_template(self@, reflow, lines as int, columns as int);
        }
        if self.lines < lines {
            self.grow_lines(lines);
        } else if self.lines > lines {
            self.shrink_lines(lines);
        }
        if self.columns < columns {
            self.grow_columns(reflow, columns);
        } else if self.columns > columns {
            self.shrink_columns(reflow, columns);
        }
        assert forall|i: int| 0 <= i < self.rows@.len() implies (#[trigger] self.rows@[i])@.len()
            == columns by {
            assert(self@.rows[i].len() == columns);
        }
    }
}

proof fn lemma_grow_rows_template(
    st: Merge,
    rows: Seq<Seq<Square>>,
    n: int,
    lines: int,
    columns: int,
    reflow: bool,
)
    ensures
        grow_rows(st, rows, n, lines, columns, reflow).cursor.template == st.cursor.template,
    decreases n,
{
    if n > 0 {
        let next = grow_row(st, rows[n - 1], n - 1, lines, columns, reflow);
        assert(next.cursor.template == st.cursor.template);
        lemma_grow_rows_template(next, rows, n - 1, lines, columns, reflow);
    }
}

/// A resize keeps the attributes that are written next, and a grid that has the
/// size already is left as it is.
pub proof fn law_a_resize_keeps_the_template(
    g: GridView,
    reflow: bool,
    lines: int,
    columns: int,
)
    ensures
        resized(g, reflow, lines, columns).cursor.template == g.cursor.template,
        resized(g, reflow, lines, columns).saved_cursor.template == g.saved_cursor.template,
        lines == g.lines && columns == g.columns ==> resized(g, reflow, lines, columns) == g,
{
    let tall = if g.lines < lines {
        with_more_lines(g, lines)
    } else if g.lines > lines {
        with_fewer_lines(g, lines)
    } else {
        g
    };
    lemma_grow_rows_template(
        grow_start(tall, reflow),
        tall.rows,
        tall.rows.len() as int,
        tall.lines,
        columns,
        reflow,
    );
}

proof fn lemma_recovered_len(row: Seq<Square>, spans: Seq<(u16, int)>, n: int, from: int)
    ensures
        recovered(row, spans, n, from).len() == row.len(),
    decreases n,
{
    if n > 0 {
        lemma_recovered_len(row, spans, n - 1, from);
    }
}

spec fn spans_view(spans: Seq<(u16, usize)>) -> Seq<(u16, int)> {
    Seq::new(spans.len(), |i: int| (spans[i].0, spans[i].1 as int))
}

/// Whether an image is already listed.
fn knows(spans: &Vec<(u16, usize)>, id: u16) -> (known: bool)
    ensures
        known == !(forall|k: int|
            0 <= k < spans_view(spans@).len() ==> (#[trigger] spans_view(spans@)[k]).0 != id),
{
    let mut i: usize = 0;
    while i < spans.len()
        invariant
            i <= spans.len(),
            forall|k: int| 0 <= k < i ==> (#[trigger] spans_view(spans@)[k]).0 != id,
        decreases spans.len() - i,
    {
        if spans[i].0 == id {
            assert(spans_view(spans@)[i as int].0 == id);
            return true;
        }
        i = i + 1;
    }
    false
}

/// The column behind the last one that an image covers.
fn image_end(span: ImageSpan) -> (end: usize)
    ensures
        end == span_end(span),
{
    let cell: usize = if span.cell_width == 0 {
        1
    } else {
        span.cell_width
    };
    let width: usize = span.width as usize;
    proof {
        let w = width as int;
        let c = cell as int;
        assert(w % c <= w) by (nonlinear_arith)
            requires
                w >= 0,
                c >= 1,
        ;
        assert((w + c - 1) / c == w / c + if w % c == 0 {
            0int
        } else {
            1int
        }) by (nonlinear_arith)
            requires
                w >= 0,
                c >= 1,
        ;
        assert(0 <= w / c <= w) by (nonlinear_arith)
            requires
                w >= 0,
                c >= 1,
        ;
    }
    let full: usize = width / cell;
    let cells: usize = if width % cell == 0 {
        full
    } else {
        full + 1
    };
    span.anchor_col as usize + cells
}

} // verus!
