//! A terminal grid with scrollback, and its resize: lines move between the
//! viewport and the history, and wrapped lines are reflowed to a new width.
//!
//! Rows are kept bottom first: row 0 is the last line of the viewport, rows
//! from `lines` on are history.
use crate::table::Table;
use vstd::prelude::*;

verus! {

/// The narrowest grid: a wide character and its spacer need two columns.
pub const MIN_COLUMNS: usize = 2;

pub const MIN_LINES: usize = 1;

#[derive(Clone, Copy, Debug, PartialEq, Eq, Structural)]
pub enum Wide {
    Narrow,
    /// The first cell of a wide character.
    Wide,
    /// The second cell of a wide character.
    Spacer,
    /// Fills the last column where a wide character was wrapped.
    LeadingSpacer,
}

/// One cell. `content` stands for the character and its attributes; 0 is blank.
#[derive(Clone, Copy, Debug, PartialEq, Eq, Structural)]
pub struct Square {
    pub content: u32,
    pub wide: Wide,
    /// Set on the last cell of a line that goes on in the next row.
    pub wrapline: bool,
    /// Whether the cell is covered by an inline image.
    pub graphics: bool,
    /// Whether only the background colour is set.
    pub bg_only: bool,
    pub extras_id: Option<u16>,
}

pub open spec fn blank() -> Square {
    Square {
        content: 0,
        wide: Wide::Narrow,
        wrapline: false,
        graphics: false,
        bg_only: false,
        extras_id: None,
    }
}

pub open spec fn leading_spacer() -> Square {
    Square { wide: Wide::LeadingSpacer, ..blank() }
}

impl Square {
    pub open spec fn spec_is_empty(&self) -> bool {
        self.content == 0 && self.wide == Wide::Narrow && !self.wrapline && !self.graphics
            && !self.bg_only
    }

    pub fn blank() -> (cell: Square)
        ensures
            cell == blank(),
    {
        Square {
            content: 0,
            wide: Wide::Narrow,
            wrapline: false,
            graphics: false,
            bg_only: false,
            extras_id: None,
        }
    }

    /// Whether the cell shows nothing.
    pub fn is_empty(&self) -> (empty: bool)
        ensures
            empty == self.spec_is_empty(),
    {
        self.content == 0 && self.wide == Wide::Narrow && !self.wrapline && !self.graphics
            && !self.bg_only
    }

    /// Whether an inline image is anchored here.
    pub open spec fn shows_image(&self) -> bool {
        self.graphics && !self.bg_only
    }
}

/// An inline image as its cells share it: the grid column its left edge stands
/// at, its width in pixels and the cell width it was inserted with.
#[derive(Clone, Copy, Debug, PartialEq, Eq, Structural)]
pub struct ImageSpan {
    pub anchor_col: u16,
    pub width: u16,
    pub cell_width: usize,
}

#[derive(Clone, Copy, Debug, PartialEq, Eq, Structural)]
pub struct Cursor {
    pub row: usize,
    pub col: usize,
    /// Whether the next character goes to the next line.
    pub should_wrap: bool,
    /// The cell that what is written next takes its attributes from.
    pub template: Square,
}

/// The grid.
#[derive(Debug, Clone)]
pub struct Grid {
    pub rows: Vec<Vec<Square>>,
    pub lines: usize,
    pub columns: usize,
    /// Lines the view is scrolled up by.
    pub display_offset: usize,
    /// The most lines of history.
    pub max_scroll_limit: usize,
    pub cursor: Cursor,
    pub saved_cursor: Cursor,
    /// Inline images by extras id.
    pub extras: Table<ImageSpan>,
}

/// The mathematical value of a [`Grid`].
#[verifier::ext_equal]
pub struct GridView {
    pub rows: Seq<Seq<Square>>,
    pub lines: int,
    pub columns: int,
    pub display_offset: int,
    pub max_scroll_limit: int,
    pub cursor: Cursor,
    pub saved_cursor: Cursor,
    pub extras: Seq<(u64, ImageSpan)>,
}

pub open spec fn rows_view(rows: Seq<Vec<Square>>) -> Seq<Seq<Square>> {
    Seq::new(rows.len(), |i: int| rows[i]@)
}

impl View for Grid {
    type V = GridView;

    open spec fn view(&self) -> GridView {
        GridView {
            rows: rows_view(self.rows@),
            lines: self.lines as int,
            columns: self.columns as int,
            display_offset: self.display_offset as int,
            max_scroll_limit: self.max_scroll_limit as int,
            cursor: self.cursor,
            saved_cursor: self.saved_cursor,
            extras: self.extras@,
        }
    }
}

/// What holds of every grid.
pub open spec fn grid_wf(g: GridView) -> bool {
    &&& g.lines >= MIN_LINES
    &&& g.columns >= MIN_COLUMNS
    &&& g.lines <= g.rows.len()
    &&& g.rows.len() <= g.lines + g.max_scroll_limit
    &&& g.display_offset <= g.rows.len() - g.lines
    &&& forall|i: int| 0 <= i < g.rows.len() ==> (#[trigger] g.rows[i]).len() == g.columns
    &&& g.cursor.row < g.lines
    &&& g.cursor.col < g.columns
    &&& g.saved_cursor.row < g.lines
    &&& g.saved_cursor.col < g.columns
}

pub open spec fn blank_row(columns: int) -> Seq<Square> {
    Seq::new(columns as nat, |i: int| blank())
}

pub open spec fn blank_rows(n: int, columns: int) -> Seq<Seq<Square>> {
    Seq::new(n as nat, |i: int| blank_row(columns))
}

/// A row filled up with blank cells.
pub open spec fn padded(row: Seq<Square>, columns: int) -> Seq<Square> {
    if row.len() < columns {
        row + blank_row(columns - row.len())
    } else {
        row
    }
}

/// A row without the blank cells at its end.
pub open spec fn trimmed(row: Seq<Square>) -> Seq<Square>
    decreases row.len(),
{
    if row.len() > 0 && row.last().spec_is_empty() {
        trimmed(row.drop_last())
    } else {
        row
    }
}

/// Whether a row shows nothing.
pub open spec fn is_clear(row: Seq<Square>) -> bool {
    forall|i: int| 0 <= i < row.len() ==> (#[trigger] row[i]).spec_is_empty()
}

/// Whether a row anchors an inline image. Such a row never reflows: its cells
/// share one image whose offsets are measured from its anchor column.
pub open spec fn has_image(row: Seq<Square>) -> bool {
    exists|i: int| 0 <= i < row.len() && (#[trigger] row[i]).shows_image()
}

/// A row with the wrap flag of its last cell set or cleared.
pub open spec fn wrap_flagged(row: Seq<Square>, wrapline: bool) -> Seq<Square> {
    if row.len() == 0 {
        row
    } else {
        row.update(row.len() - 1, Square { wrapline, ..row.last() })
    }
}

pub open spec fn min_int(a: int, b: int) -> int {
    if a <= b {
        a
    } else {
        b
    }
}

/// The grid with more lines: they come from the history, and below the content
/// once that is exhausted.
pub open spec fn with_more_lines(g: GridView, target: int) -> GridView {
    let added = target - g.lines;
    let history = g.rows.len() - g.lines;
    let from_history = min_int(history, added);
    let new_history = history - from_history;
    GridView {
        rows: blank_rows(added - from_history, g.columns) + g.rows,
        lines: target,
        cursor: Cursor { row: (g.cursor.row + from_history) as usize, ..g.cursor },
        saved_cursor: Cursor {
            row: (g.saved_cursor.row + from_history) as usize,
            ..g.saved_cursor
        },
        display_offset: if g.display_offset <= added {
            0
        } else {
            g.display_offset - added
        },
        ..g
    }
}

/// The grid with fewer lines: content moves up into the history as far as the
/// cursor would leave the viewport, the rest goes from the bottom.
pub open spec fn with_fewer_lines(g: GridView, target: int) -> GridView {
    let scroll = if g.cursor.row + 1 > target {
        g.cursor.row + 1 - target
    } else {
        0
    };
    let scrolled = (blank_rows(scroll, g.columns) + g.rows).take(
        min_int(g.rows.len() + scroll, g.lines + g.max_scroll_limit),
    );
    GridView {
        rows: scrolled.skip(g.lines - target),
        lines: target,
        cursor: Cursor { row: min_int(g.cursor.row as int, target - 1) as usize, ..g.cursor },
        saved_cursor: Cursor {
            row: min_int(g.saved_cursor.row as int, target - 1) as usize,
            ..g.saved_cursor
        },
        display_offset: if scroll > 0 && g.display_offset != 0 {
            min_int(g.display_offset + scroll, g.max_scroll_limit)
        } else {
            g.display_offset
        },
        ..g
    }
}

/// A row filled up with blank cells.
pub(crate) fn pad_row(row: &mut Vec<Square>, columns: usize)
    ensures
        final(row)@ == padded(old(row)@, columns as int),
{
    let ghost before = row@;
    while row.len() < columns
        invariant
            before.len() <= row.len(),
            row.len() <= columns || row@ == before,
            row@ =~= before + blank_row(row.len() - before.len()),
        decreases columns - row.len(),
    {
        row.push(Square::blank());
    }
    assert(row@ =~= padded(before, columns as int));
}

/// `n` blank rows.
pub(crate) fn make_blank_rows(n: usize, columns: usize) -> (rows: Vec<Vec<Square>>)
    ensures
        rows_view(rows@) == blank_rows(n as int, columns as int),
{
    let mut rows: Vec<Vec<Square>> = Vec::new();
    while rows.len() < n
        invariant
            rows.len() <= n,
            rows_view(rows@) =~= blank_rows(rows.len() as int, columns as int),
        decreases n - rows.len(),
    {
        let mut row: Vec<Square> = Vec::new();
        pad_row(&mut row, columns);
        assert(row@ =~= blank_row(columns as int));
        let ghost before = rows_view(rows@);
        rows.push(row);
        assert(rows_view(rows@) =~= before.push(blank_row(columns as int)));
    }
    rows
}

impl Grid {
    pub open spec fn wf(&self) -> bool {
        grid_wf(self@)
    }

    /// Lines of history.
    pub fn history_size(&self) -> (n: usize)
        requires
            self.lines <= self.rows@.len(),
        ensures
            n == self@.rows.len() - self@.lines,
    {
        self.rows.len() - self.lines
    }

    pub(crate) fn grow_lines(&mut self, target: usize)
        requires
            old(self).wf(),
            old(self).lines < target,
        ensures
            final(self)@ == with_more_lines(old(self)@, target as int),
    {
        let added: usize = target - self.lines;
        let history: usize = self.history_size();
        let from_history: usize = if history < added {
            history
        } else {
            added
        };
        let mut rows = make_blank_rows(added - from_history, self.columns);
        let ghost fresh = rows_view(rows@);
        rows.append(&mut self.rows);
        assert(rows_view(rows@) =~= fresh + old(self)@.rows);
        self.rows = rows;
        self.lines = target;
        self.saved_cursor.row = self.saved_cursor.row + from_history;
        self.cursor.row = self.cursor.row + from_history;
        self.display_offset = if self.display_offset <= added {
            0
        } else {
            self.display_offset - added
        };
        assert(self@ =~= with_more_lines(old(self)@, target as int));
    }

    pub(crate) fn shrink_lines(&mut self, target: usize)
        requires
            old(self).wf(),
            0 < target < old(self).lines,
            old(self).lines + old(self).max_scroll_limit <= usize::MAX,
        ensures
            final(self)@ == with_fewer_lines(old(self)@, target as int),
    {
        let ghost before = self@;
        let scroll: usize = if self.cursor.row + 1 > target {
            self.cursor.row + 1 - target
        } else {
            0
        };
        let mut rows = make_blank_rows(scroll, self.columns);
        let ghost fresh = rows_view(rows@);
        rows.append(&mut self.rows);
        assert(rows_view(rows@) =~= fresh + before.rows);
        let cap: usize = self.lines + self.max_scroll_limit;
        let ghost all = rows_view(rows@);
        if rows.len() > cap {
            rows.truncate(cap);
        }
        let ghost kept = rows_view(rows@);
        assert(kept =~= all.take(
            min_int(before.rows.len() + scroll, before.lines + before.max_scroll_limit),
        ));
        let rest = rows.split_off(self.lines - target);
        assert(rows_view(rest@) =~= kept.skip(before.lines - target));
        self.rows = rest;
        if scroll > 0 {
            self.cursor.row = if self.cursor.row < target - 1 {
                self.cursor.row
            } else {
                target - 1
            };
            if self.display_offset != 0 {
                self.display_offset = if self.max_scroll_limit < scroll
                    || self.max_scroll_limit - scroll < self.display_offset {
                    self.max_scroll_limit
                } else {
                    self.display_offset + scroll
                };
            }
        }
        self.saved_cursor.row = if self.saved_cursor.row < target - 1 {
            self.saved_cursor.row
        } else {
            target - 1
        };
        self.lines = target;
        assert(self@ =~= with_fewer_lines(old(self)@, target as int));
    }
}

} // verus!
