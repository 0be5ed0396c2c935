//! Reflow to a narrower grid.
use crate::grid::{
    has_image, leading_spacer, min_int, pad_row, padded, rows_view, trimmed, wrap_flagged, Cursor,
    Grid, GridView, Square, Wide, MIN_COLUMNS,
};
use vstd::prelude::*;

verus! {

/// A reflow under way: the rows made so far, oldest first, the cells left over
/// for the next row, the cursor and the scroll position.
#[verifier::ext_equal]
pub struct Reflow {
    pub out: Seq<Seq<Square>>,
    pub buffered: Option<Seq<Square>>,
    pub row: int,
    pub col: int,
    pub display_offset: int,
}

/// The part of a row that fits.
pub open spec fn fitting(row: Seq<Square>, columns: int) -> Seq<Square> {
    if row.len() > columns {
        row.take(columns)
    } else {
        row
    }
}

/// The part of a row that does not fit, without blanks at its end.
pub open spec fn overflowing(row: Seq<Square>, columns: int) -> Seq<Square> {
    if row.len() > columns {
        trimmed(row.skip(columns))
    } else {
        Seq::empty()
    }
}

/// A scroll position one line further up.
pub open spec fn one_more(display_offset: int) -> int {
    if display_offset < usize::MAX {
        display_offset + 1
    } else {
        display_offset
    }
}

/// How many cells wait for the next row.
pub open spec fn left_over(st: Reflow) -> int {
    match st.buffered {
        Some(left) => left.len() as int,
        None => 0,
    }
}

/// A row added to the output.
pub open spec fn emitted(st: Reflow, row: Seq<Square>) -> Reflow {
    Reflow { out: st.out.push(row), ..st }
}

/// The cursor and the scroll position after a line was added at `i`.
pub open spec fn line_added(st: Reflow, i: int, lines: int, columns: int) -> Reflow {
    let cursor_line = lines - st.row - 1;
    Reflow {
        row: if (i == cursor_line && st.col < columns || i < cursor_line) && st.row > 0 {
            st.row - 1
        } else {
            st.row
        },
        col: if i == cursor_line && st.col >= columns {
            st.col - columns
        } else {
            st.col
        },
        display_offset: if i < st.display_offset {
            one_more(st.display_offset)
        } else {
            st.display_offset
        },
        ..st
    }
}

/// The head of a row about to be cut: a wide character that would lose its
/// second cell leaves a spacer behind.
pub open spec fn cut_head(row: Seq<Square>, columns: int) -> Seq<Square> {
    let head = fitting(row, columns);
    if head.len() >= columns && head[columns - 1].wide == Wide::Wide {
        head.update(columns - 1, leading_spacer())
    } else {
        head
    }
}

/// The tail of a row about to be cut, with such a wide character in front.
pub open spec fn cut_tail(row: Seq<Square>, columns: int) -> Seq<Square> {
    let head = fitting(row, columns);
    let tail = overflowing(row, columns);
    if head.len() >= columns && head[columns - 1].wide == Wide::Wide {
        seq![head[columns - 1]] + tail
    } else {
        tail
    }
}

/// Whether a tail ends in a spacer that only filled the old last column.
pub open spec fn ends_in_spacer(tail: Seq<Square>) -> bool {
    tail.len() > 0 && tail.last().wide == Wide::LeadingSpacer
}

/// A tail without that spacer.
pub open spec fn unspaced(tail: Seq<Square>) -> Seq<Square> {
    if ends_in_spacer(tail) {
        wrap_flagged(tail.drop_last(), true)
    } else {
        tail
    }
}

pub proof fn lemma_trimmed_len(row: Seq<Square>)
    ensures
        trimmed(row).len() <= row.len(),
    decreases row.len(),
{
    if row.len() > 0 && row.last().spec_is_empty() {
        lemma_trimmed_len(row.drop_last());
    }
}

/// One row, cut into as many as it needs. What is left of a line that went on
/// in the next row is kept for that one.
pub open spec fn wrap_row(
    st: Reflow,
    row: Seq<Square>,
    i: int,
    lines: int,
    columns: int,
    reflow: bool,
) -> Reflow
    decreases row.len(), st.col,
{
    let at_cursor = i == lines - st.row - 1;
    if row.len() < columns || columns < MIN_COLUMNS || !reflow || (overflowing(row, columns).len()
        == 0 && !(at_cursor && st.col > columns)) {
        emitted(st, fitting(row, columns))
    } else {
        let head = cut_head(row, columns);
        let tail = cut_tail(row, columns);
        if ends_in_spacer(tail) && tail.len() == 1 {
            emitted(st, wrap_flagged(head, true))
        } else {
            let rest = unspaced(tail);
            let pushed = emitted(st, wrap_flagged(head, true));
            if rest.len() > 0 && rest.last().wrapline && i >= 1 && rest.len() < columns {
                Reflow { buffered: Some(wrap_flagged(rest, false)), ..pushed }
            } else {
                proof {
                    lemma_trimmed_len(row.skip(columns));
                }
                wrap_row(
                    line_added(pushed, i, lines, columns),
                    padded(rest, columns),
                    i,
                    lines,
                    columns,
                    reflow,
                )
            }
        }
    }
}

/// The next row, with what the one above left over in front of it. Nothing
/// flows into or out of a row with an image, which is clipped instead.
pub open spec fn shrink_row(
    st: Reflow,
    row: Seq<Square>,
    i: int,
    lines: int,
    columns: int,
    reflow: bool,
) -> Reflow {
    let (next, line) = match st.buffered {
        Some(left) => {
            let taken = Reflow { buffered: None, ..st };
            if has_image(row) {
                (
                    Reflow {
                        out: st.out.push(padded(left, columns)),
                        display_offset: if i < st.display_offset {
                            one_more(st.display_offset)
                        } else {
                            st.display_offset
                        },
                        ..taken
                    },
                    row,
                )
            } else if i == lines - st.row - 1 {
                (Reflow { col: st.col + left.len(), ..taken }, left + row)
            } else {
                (taken, left + row)
            }
        },
        None => (st, row),
    };
    if has_image(line) {
        emitted(next, fitting(line, columns))
    } else {
        wrap_row(next, line, i, lines, columns, reflow)
    }
}

/// The rows below index `n`, oldest first.
pub open spec fn shrink_rows(
    st: Reflow,
    rows: Seq<Seq<Square>>,
    n: int,
    lines: int,
    columns: int,
    reflow: bool,
) -> Reflow
    decreases n,
{
    if n <= 0 {
        st
    } else {
        shrink_rows(
            shrink_row(st, rows[n - 1], n - 1, lines, columns, reflow),
            rows,
            n - 1,
            lines,
            columns,
            reflow,
        )
    }
}

/// The reflow before the first row: a cursor waiting to wrap stands outside.
pub open spec fn shrink_start(g: GridView, reflow: bool) -> Reflow {
    Reflow {
        out: Seq::empty(),
        buffered: None,
        row: g.cursor.row as int,
        col: if g.cursor.should_wrap && reflow {
            g.cursor.col + 1
        } else {
            g.cursor.col as int
        },
        display_offset: g.display_offset,
    }
}

/// The cursor after the reflow, put back into the grid.
pub open spec fn settled_cursor(
    st: Reflow,
    rows: Seq<Seq<Square>>,
    lines: int,
    columns: int,
    reflow: bool,
    before: Cursor,
) -> Cursor {
    let waits = before.should_wrap && !reflow;
    let wrapping = reflow && st.col == columns && !rows[lines - st.row - 1][columns - 1].wrapline;
    Cursor {
        row: st.row as usize,
        col: min_int(st.col, columns - 1) as usize,
        should_wrap: waits || wrapping,
        ..before
    }
}

/// The grid with fewer columns.
pub open spec fn with_fewer_columns(g: GridView, reflow: bool, columns: int) -> GridView {
    let done = shrink_rows(
        shrink_start(g, reflow),
        g.rows,
        g.rows.len() as int,
        g.lines,
        columns,
        reflow,
    );
    let all = done.out.reverse();
    let rows = all.take(min_int(all.len() as int, g.max_scroll_limit + g.lines));
    GridView {
        rows,
        columns,
        display_offset: min_int(done.display_offset, rows.len() - g.lines),
        cursor: settled_cursor(done, rows, g.lines, columns, reflow, g.cursor),
        saved_cursor: Cursor {
            col: min_int(g.saved_cursor.col as int, columns - 1) as usize,
            ..g.saved_cursor
        },
        ..g
    }
}

struct ReflowState {
    out: Vec<Vec<Square>>,
    buffered: Option<Vec<Square>>,
    row: usize,
    col: usize,
    display_offset: usize,
}

impl View for ReflowState {
    type V = Reflow;

    closed spec fn view(&self) -> Reflow {
        Reflow {
            out: rows_view(self.out@),
            buffered: match self.buffered {
                Some(left) => Some(left@),
                None => None,
            },
            row: self.row as int,
            col: self.col as int,
            display_offset: self.display_offset as int,
        }
    }
}

/// Drops the blank cells at the end of a row.
fn trim_row(row: &mut Vec<Square>)
    ensures
        final(row)@ == trimmed(old(row)@),
{
    while row.len() > 0 && row[row.len() - 1].is_empty()
        invariant
            trimmed(old(row)@) == trimmed(row@),
        decreases row.len(),
    {
        let ghost before = row@;
        let _ = row.pop();
        assert(row@ =~= before.drop_last());
    }
}

/// Sets or clears the wrap flag of the last cell.
pub(crate) fn flag_wrap(row: &mut Vec<Square>, wrapline: bool)
    ensures
        final(row)@ == wrap_flagged(old(row)@, wrapline),
{
    let n: usize = row.len();
    if n > 0 {
        let mut cell = row[n - 1];
        cell.wrapline = wrapline;
        row.set(n - 1, cell);
    }
    assert(row@ =~= wrap_flagged(old(row)@, wrapline));
}

/// Whether a row anchors an inline image.
pub(crate) fn row_has_graphics(row: &Vec<Square>) -> (found: bool)
    ensures
        found == has_image(row@),
{
    let mut i: usize = 0;
    while i < row.len()
        invariant
            i <= row.len(),
            forall|j: int| 0 <= j < i ==> !(#[trigger] row@[j]).shows_image(),
        decreases row.len() - i,
    {
        if row[i].graphics && !row[i].bg_only {
            assert(row@[i as int].shows_image());
            return true;
        }
        i = i + 1;
    }
    false
}

impl ReflowState {
    fn emit(&mut self, row: Vec<Square>)
        ensures
            final(self)@ == emitted(old(self)@, row@),
    {
        let ghost before = rows_view(self.out@);
        self.out.push(row);
        assert(rows_view(self.out@) =~= before.push(row@));
        assert(self@ =~= emitted(old(self)@, row@));
    }

    fn scroll_one(&mut self, i: usize)
        ensures
            final(self)@ == (Reflow {
                display_offset: if i < old(self)@.display_offset {
                    one_more(old(self)@.display_offset)
                } else {
                    old(self)@.display_offset
                },
                ..old(self)@
            }),
    {
        if i < self.display_offset && self.display_offset < usize::MAX {
            self.display_offset = self.display_offset + 1;
        }
    }

    fn add_line(&mut self, i: usize, lines: usize, columns: usize)
        requires
            old(self).row < lines,
        ensures
            final(self)@ == line_added(old(self)@, i as int, lines as int, columns as int),
    {
        let cursor_line: usize = lines - self.row - 1;
        let col: usize = self.col;
        if (i == cursor_line && col < columns || i < cursor_line) && self.row > 0 {
            self.row = self.row - 1;
        }
        if i == cursor_line && col >= columns {
            self.col = col - columns;
        }
        self.scroll_one(i);
        assert(self@ =~= line_added(old(self)@, i as int, lines as int, columns as int));
    }

    fn wrap(&mut self, line: Vec<Square>, i: usize, lines: usize, columns: usize, reflow: bool)
        requires
            old(self).row < lines,
            columns >= MIN_COLUMNS,
        ensures
            final(self)@ == wrap_row(
                old(self)@,
                line@,
                i as int,
                lines as int,
                columns as int,
                reflow,
            ),
            final(self).row <= old(self).row,
            final(self).col <= old(self).col,
            left_over(old(self)@) == 0 ==> left_over(final(self)@) < columns,
    {
        let mut row = line;
        loop
            invariant
                self.row < lines,
                self.row <= old(self).row,
                self.col <= old(self).col,
                columns >= MIN_COLUMNS,
                left_over(self@) == left_over(old(self)@),
                wrap_row(
                    old(self)@,
                    line@,
                    i as int,
                    lines as int,
                    columns as int,
                    reflow,
                ) == wrap_row(
                    self@,
                    row@,
                    i as int,
                    lines as int,
                    columns as int,
                    reflow,
                ),
            decreases row@.len(), self.col,
        {
            let ghost start = row@;
            let ghost st = self@;
            if row.len() < columns {
                self.emit(row);
                return ;
            }
            let mut tail: Vec<Square> = row.split_off(columns);
            assert(row@ =~= fitting(start, columns as int));
            trim_row(&mut tail);
            proof {
                assert(start.skip(columns as int) =~= start.subrange(
                    columns as int,
                    start.len() as int,
                ));
                if start.len() == columns {
                    assert(tail@ =~= overflowing(start, columns as int));
                }
                lemma_trimmed_len(start.skip(columns as int));
            }
            let at_cursor: bool = i == lines - self.row - 1;
            if !reflow || (tail.len() == 0 && !(at_cursor && self.col > columns)) {
                self.emit(row);
                return ;
            }
            // A wide character cannot be cut in two.
            let last = row[columns - 1];
            if last.wide == Wide::Wide {
                let mut spacer = Square::blank();
                spacer.wide = Wide::LeadingSpacer;
                row.set(columns - 1, spacer);
                tail.insert(0, last);
            }
            assert(row@ =~= cut_head(start, columns as int));
            assert(tail@ =~= cut_tail(start, columns as int));
            if tail.len() > 0 && tail[tail.len() - 1].wide == Wide::LeadingSpacer {
                if tail.len() == 1 {
                    flag_wrap(&mut row, true);
                    self.emit(row);
                    return ;
                }
                let _ = tail.pop();
                assert(tail@ =~= cut_tail(start, columns as int).drop_last());
                flag_wrap(&mut tail, true);
            }
            assert(tail@ == unspaced(cut_tail(start, columns as int)));
            flag_wrap(&mut row, true);
            self.emit(row);
            if tail.len() > 0 && tail[tail.len() - 1].wrapline && i >= 1 && tail.len() < columns {
                flag_wrap(&mut tail, false);
                self.buffered = Some(tail);
                return ;
            }
            self.add_line(i, lines, columns);
            pad_row(&mut tail, columns);
            row = tail;
        }
    }

    fn shrink_one(&mut self, row: Vec<Square>, i: usize, lines: usize, columns: usize, reflow: bool)
        requires
            old(self).row < lines,
            columns >= MIN_COLUMNS,
            i == lines - old(self).row - 1 ==> old(self).col + left_over(old(self)@) <= usize::MAX,
        ensures
            final(self)@ == shrink_row(
                old(self)@,
                row@,
                i as int,
                lines as int,
                columns as int,
                reflow,
            ),
            final(self).row <= old(self).row,
            i != lines - old(self).row - 1 ==> final(self).col <= old(self).col,
            final(self).col <= old(self).col + left_over(old(self)@),
            left_over(final(self)@) < columns,
    {
        let mut line = row;
        let ghost given = line@;
        let mut buffered: Option<Vec<Square>> = None;
        std::mem::swap(&mut buffered, &mut self.buffered);
        if let Some(left) = buffered {
            let mut left = left;
            let ghost left_cells = left@;
            if row_has_graphics(&line) {
                pad_row(&mut left, columns);
                self.emit(left);
                self.scroll_one(i);
            } else {
                if i == lines - self.row - 1 {
                    self.col = self.col + left.len();
                }
                left.append(&mut line);
                line = left;
                assert(line@ =~= left_cells + given);
            }
        }
        if row_has_graphics(&line) {
            let ghost whole = line@;
            if line.len() > columns {
                line.truncate(columns);
            }
            assert(line@ =~= fitting(whole, columns as int));
            self.emit(line);
        } else {
            self.wrap(line, i, lines, columns, reflow);
        }
    }
}

/// Whether every row made so far has the new width.
pub open spec fn all_wide(out: Seq<Seq<Square>>, columns: int) -> bool {
    forall|k: int| 0 <= k < out.len() ==> (#[trigger] out[k]).len() == columns
}

proof fn lemma_emitted_wide(st: Reflow, row: Seq<Square>, columns: int)
    requires
        all_wide(st.out, columns),
        row.len() == columns,
    ensures
        all_wide(emitted(st, row).out, columns),
{
    let out = emitted(st, row).out;
    assert forall|k: int| 0 <= k < out.len() implies (#[trigger] out[k]).len() == columns by {
        if k < st.out.len() {
            assert(out[k] == st.out[k]);
        }
    }
}

/// Cutting a row makes at least one, all of the new width, and leaves less than
/// a row over.
proof fn lemma_wrap_row(
    st: Reflow,
    row: Seq<Square>,
    i: int,
    lines: int,
    columns: int,
    reflow: bool,
)
    requires
        all_wide(st.out, columns),
        row.len() >= columns,
        columns >= MIN_COLUMNS,
        st.buffered is None,
        0 <= st.row < lines,
        0 <= st.col,
    ensures
        ({
            let after = wrap_row(st, row, i, lines, columns, reflow);
            &&& all_wide(after.out, columns)
            &&& after.out.len() > st.out.len()
            &&& left_over(after) < columns
            &&& i == 0 ==> after.buffered is None
            &&& 0 <= after.row <= st.row
            &&& 0 <= after.col <= st.col
        }),
    decreases row.len(), st.col,
{
    let at_cursor = i == lines - st.row - 1;
    if !reflow || (overflowing(row, columns).len() == 0 && !(at_cursor && st.col > columns)) {
        lemma_emitted_wide(st, fitting(row, columns), columns);
    } else {
        let head = cut_head(row, columns);
        let tail = cut_tail(row, columns);
        lemma_emitted_wide(st, wrap_flagged(head, true), columns);
        if !(ends_in_spacer(tail) && tail.len() == 1) {
            let rest = unspaced(tail);
            let pushed = emitted(st, wrap_flagged(head, true));
            if !(rest.len() > 0 && rest.last().wrapline && i >= 1 && rest.len() < columns) {
                lemma_trimmed_len(row.skip(columns));
                lemma_wrap_row(
                    line_added(pushed, i, lines, columns),
                    padded(rest, columns),
                    i,
                    lines,
                    columns,
                    reflow,
                );
            }
        }
    }
}

proof fn lemma_shrink_row(
    st: Reflow,
    row: Seq<Square>,
    i: int,
    lines: int,
    columns: int,
    reflow: bool,
)
    requires
        all_wide(st.out, columns),
        row.len() >= columns,
        columns >= MIN_COLUMNS,
        left_over(st) < columns,
        0 <= st.row < lines,
        0 <= st.col,
    ensures
        ({
            let after = shrink_row(st, row, i, lines, columns, reflow);
            &&& all_wide(after.out, columns)
            &&& after.out.len() > st.out.len()
            &&& left_over(after) < columns
            &&& i == 0 ==> after.buffered is None
            &&& 0 <= after.row <= st.row
            &&& 0 <= after.col
        }),
{
    match st.buffered {
        Some(left) => {
            if has_image(row) {
                lemma_emitted_wide(st, padded(left, columns), columns);
                let next = Reflow {
                    out: st.out.push(padded(left, columns)),
                    display_offset: if i < st.display_offset {
                        one_more(st.display_offset)
                    } else {
                        st.display_offset
                    },
                    buffered: None,
                    ..st
                };
                lemma_emitted_wide(next, fitting(row, columns), columns);
            } else {
                let taken = Reflow { buffered: None, ..st };
                let next = if i == lines - st.row - 1 {
                    Reflow { col: st.col + left.len(), ..taken }
                } else {
                    taken
                };
                if has_image(left + row) {
                    lemma_emitted_wide(next, fitting(left + row, columns), columns);
                } else {
                    lemma_wrap_row(next, left + row, i, lines, columns, reflow);
                }
            }
        },
        None => {
            if has_image(row) {
                lemma_emitted_wide(st, fitting(row, columns), columns);
            } else {
                lemma_wrap_row(st, row, i, lines, columns, reflow);
            }
        },
    }
}

/// Reflowing rows makes at least as many, all of the new width, and leaves
/// nothing over.
pub proof fn lemma_shrink_rows(
    st: Reflow,
    rows: Seq<Seq<Square>>,
    n: int,
    lines: int,
    columns: int,
    reflow: bool,
)
    requires
        0 <= n <= rows.len(),
        all_wide(st.out, columns),
        columns >= MIN_COLUMNS,
        left_over(st) < columns,
        0 <= st.row < lines,
        0 <= st.col,
        forall|k: int| 0 <= k < rows.len() ==> (#[trigger] rows[k]).len() >= columns,
    ensures
        ({
            let after = shrink_rows(st, rows, n, lines, columns, reflow);
            &&& all_wide(after.out, columns)
            &&& after.out.len() >= st.out.len() + n
            &&& n > 0 ==> after.buffered is None
            &&& 0 <= after.row <= st.row
        }),
    decreases n,
{
    if n > 0 {
        lemma_shrink_row(st, rows[n - 1], n - 1, lines, columns, reflow);
        lemma_shrink_rows(
            shrink_row(st, rows[n - 1], n - 1, lines, columns, reflow),
            rows,
            n - 1,
            lines,
            columns,
            reflow,
        );
    }
}

impl Grid {
    /// Narrows every row, reflowing where `reflow` asks for it.
    pub(crate) fn shrink_columns(&mut self, reflow: bool, columns: usize)
        requires
            old(self).wf(),
            MIN_COLUMNS <= columns < old(self).columns,
            old(self).columns + columns < usize::MAX,
            old(self).lines + old(self).max_scroll_limit <= usize::MAX,
        ensures
            final(self)@ == with_fewer_columns(old(self)@, reflow, columns as int),
            final(self).wf(),
    {
        let ghost before = self@;
        let lines: usize = self.lines;
        let mut rows: Vec<Vec<Square>> = Vec::new();
        std::mem::swap(&mut rows, &mut self.rows);
        let mut st = ReflowState {
            out: Vec::new(),
            buffered: None,
            row: self.cursor.row,
            col: if self.cursor.should_wrap && reflow {
                self.cursor.col + 1
            } else {
                self.cursor.col
            },
            display_offset: self.display_offset,
        };
        let ghost start = st@;
        let ghost total = before.rows.len();
        assert(st@ =~= shrink_start(before, reflow));
        assert(rows_view(rows@) =~= before.rows.take(total as int));
        while rows.len() > 0
            invariant
                rows@.len() <= total,
                total == before.rows.len(),
                grid_facts(before, columns as int),
                lines == before.lines,
                rows_view(rows@) == before.rows.take(rows@.len() as int),
                start.col <= before.columns,
                before.columns + columns < usize::MAX,
                st.row < lines,
                st.col <= start.col + columns,
                rows@.len() > lines - st.row - 1 ==> st.col <= start.col,
                left_over(st@) < columns,
                rows@.len() == 0 ==> st@.buffered is None || total == 0,
                all_wide(st@.out, columns as int),
                st@.out.len() >= total - rows@.len(),
                shrink_rows(
                    start,
                    before.rows,
                    total as int,
                    lines as int,
                    columns as int,
                    reflow,
                ) == shrink_rows(
                    st@,
                    before.rows,
                    rows@.len() as int,
                    lines as int,
                    columns as int,
                    reflow,
                ),
            decreases rows@.len(),
        {
            let ghost n = rows@.len();
            let ghost seen = rows_view(rows@);
            if let Some(row) = rows.pop() {
                let i: usize = rows.len();
                proof {
                    assert(row@ == seen[n - 1]);
                    assert(row@ == before.rows[n - 1]);
                    assert(rows_view(rows@) =~= before.rows.take(n - 1));
                    lemma_shrink_row(
                        st@,
                        row@,
                        i as int,
                        lines as int,
                        columns as int,
                        reflow,
                    );
                }
                st.shrink_one(row, i, lines, columns, reflow);
            }
        }
        let ghost done = st@;
        let ReflowState { out, buffered: _, row, col, display_offset } = st;
        let mut all = out;
        let ghost made = rows_view(all@);
        reverse_rows(&mut all);
        assert(rows_view(all@) =~= made.reverse());
        let cap: usize = self.max_scroll_limit + lines;
        let ghost everything = rows_view(all@);
        if all.len() > cap {
            all.truncate(cap);
        }
        assert(rows_view(all@) =~= everything.take(
            min_int(everything.len() as int, before.max_scroll_limit + before.lines),
        ));
        self.rows = all;
        self.columns = columns;
        let history: usize = self.rows.len() - lines;
        self.display_offset = if display_offset < history {
            display_offset
        } else {
            history
        };
        proof {
            assert forall|k: int| 0 <= k < self.rows@.len() implies (
            #[trigger] self@.rows[k]).len() == columns by {
                assert(self@.rows[k] == made[made.len() - 1 - k]);
            }
        }
        let cursor_line: usize = lines - row - 1;
        assert(self@.rows[cursor_line as int].len() == columns);
        let wrapping: bool = reflow && col == columns && !self.rows[cursor_line][columns
            - 1].wrapline;
        self.cursor = Cursor {
            row,
            col: if col < columns - 1 {
                col
            } else {
                columns - 1
            },
            should_wrap: (self.cursor.should_wrap && !reflow) || wrapping,
            template: self.cursor.template,
        };
        if self.saved_cursor.col > columns - 1 {
            self.saved_cursor.col = columns - 1;
        }
        assert(self@ =~= with_fewer_columns(before, reflow, columns as int));
    }
}

/// What the loop over the rows needs of the grid.
spec fn grid_facts(g: GridView, columns: int) -> bool {
    &&& MIN_COLUMNS <= columns < g.columns
    &&& forall|i: int| 0 <= i < g.rows.len() ==> (#[trigger] g.rows[i]).len() == g.columns
}

/// Reverses the order of rows.
pub(crate) fn reverse_rows(rows: &mut Vec<Vec<Square>>)
    ensures
        final(rows)@ == old(rows)@.reverse(),
{
    let ghost all = rows@;
    let mut out: Vec<Vec<Square>> = Vec::new();
    assert(all.take(all.len() as int) =~= all);
    while rows.len() > 0
        invariant
            rows@ == all.take(rows@.len() as int),
            rows@.len() <= all.len(),
            out@ == all.skip(rows@.len() as int).reverse(),
        decreases rows@.len(),
    {
        let ghost n = rows@.len();
        if let Some(row) = rows.pop() {
            proof {
                assert(row == all[n - 1]);
                assert(rows@ =~= all.take(n - 1));
                assert(all.skip(n - 1).reverse() =~= all.skip(n as int).reverse().push(row));
            }
            out.push(row);
        }
    }
    assert(all.skip(0) =~= all);
    *rows = out;
}

} // verus!
