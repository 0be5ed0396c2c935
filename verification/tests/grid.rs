use rio_sessions::grid::{Cursor, Grid, ImageSpan, Square, Wide};
use rio_sessions::table::Table;

fn cell(c: char) -> Square {
    if c == ' ' {
        Square::blank()
    } else {
        Square { content: c as u32, ..Square::blank() }
    }
}

fn row(text: &str, columns: usize) -> Vec<Square> {
    let mut cells: Vec<Square> = text.chars().map(cell).collect();
    cells.resize(columns, Square::blank());
    cells
}

/// A grid whose first row is at the bottom, as it is held.
fn grid(rows: &[&str], lines: usize, columns: usize, at: (usize, usize)) -> Grid {
    let cursor = Cursor { row: at.0, col: at.1, should_wrap: false, template: Square::blank() };
    Grid {
        rows: rows.iter().rev().map(|r| row(r, columns)).collect(),
        lines,
        columns,
        display_offset: 0,
        max_scroll_limit: 100,
        cursor,
        saved_cursor: cursor,
        extras: Table::new(),
    }
}

/// The rows from the top, without what is blank at their ends.
fn shown(g: &Grid) -> Vec<String> {
    g.rows
        .iter()
        .rev()
        .map(|r| {
            let text: String = r
                .iter()
                .map(|c| if c.content == 0 { ' ' } else { char::from_u32(c.content).unwrap() })
                .collect();
            text.trim_end().to_string()
        })
        .collect()
}

#[test]
fn a_line_wraps_and_comes_back() {
    let mut g = grid(&["abcdef", "xy"], 2, 6, (1, 2));
    g.resize(true, 2, 4);
    assert_eq!(shown(&g), ["abcd", "ef", "xy"]);
    assert_eq!(g.columns, 4);
    assert_eq!(g.history_size(), 1);
    assert_eq!((g.cursor.row, g.cursor.col), (1, 2));
    g.resize(true, 2, 6);
    assert_eq!(shown(&g), ["abcdef", "xy"]);
    assert_eq!((g.cursor.row, g.cursor.col), (1, 2));
}

#[test]
fn without_reflow_a_line_is_cut() {
    let mut g = grid(&["abcdef", "xy"], 2, 6, (1, 0));
    g.resize(false, 2, 4);
    assert_eq!(shown(&g), ["abcd", "xy"]);
}

#[test]
fn lines_are_added_and_taken() {
    let mut g = grid(&["a", "b", "c"], 3, 4, (2, 0));
    g.resize(true, 2, 4);
    assert_eq!(g.lines, 2);
    assert_eq!(shown(&g), ["a", "b", "c"]);
    assert_eq!((g.history_size(), g.cursor.row), (1, 1));
    g.resize(true, 4, 4);
    assert_eq!(g.lines, 4);
    assert_eq!(g.rows.len(), 4);
}

#[test]
fn a_wide_character_is_not_torn() {
    let mut g = grid(&["ab  "], 1, 4, (0, 0));
    g.rows[0][2] = Square { content: 'W' as u32, wide: Wide::Wide, ..Square::blank() };
    g.rows[0][3] = Square { wide: Wide::Spacer, ..Square::blank() };
    g.resize(true, 1, 3);
    assert_eq!(g.rows[1][2].wide, Wide::LeadingSpacer);
    assert_eq!((g.rows[0][0].wide, g.rows[0][0].content), (Wide::Wide, 'W' as u32));
}

#[test]
fn an_image_is_cut_and_comes_back() {
    let mut g = grid(&["", ""], 2, 6, (1, 0));
    g.extras.insert(7, ImageSpan { anchor_col: 1, width: 40, cell_width: 10 });
    for c in 1..5 {
        g.rows[1][c] = Square { graphics: true, extras_id: Some(7), ..Square::blank() };
    }
    g.resize(true, 2, 3);
    assert_eq!(g.rows.len(), 2);
    assert_eq!(g.rows[1].len(), 3);
    assert!(g.rows[1][1].graphics && g.rows[1][2].graphics);
    g.resize(true, 2, 6);
    let covered: Vec<bool> = g.rows[1].iter().map(|c| c.graphics).collect();
    assert_eq!(covered, [false, true, true, true, true, false]);
    assert!(g.rows[1][4].extras_id == Some(7));
}

#[test]
fn a_cell_is_empty_or_not() {
    assert!(Square::blank().is_empty());
    assert!(!cell('x').is_empty());
    assert!(!Square { graphics: true, ..Square::blank() }.is_empty());
}

#[test]
fn a_table_keeps_one_value_for_a_key() {
    let mut t: Table<&str> = Table::new();
    assert!(t.is_empty());
    t.insert(3, "a");
    t.insert(4, "b");
    t.insert(3, "c");
    assert_eq!((t.len(), t.get(3), t.get(5)), (2, Some(&"c"), None));
    assert_eq!(t.remove(3), Some("c"));
    assert_eq!(t.remove(3), None);
    assert!(!t.contains_key(3) && t.contains_key(4));
}

#[test]
fn an_image_between_lines_comes_back_in_one_row() {
    let mut g = grid(&["abcdef", "", "ghijkl"], 3, 6, (2, 0));
    g.extras.insert(7, ImageSpan { anchor_col: 1, width: 35, cell_width: 10 });
    for c in 1..5 {
        g.rows[1][c] = Square { graphics: true, extras_id: Some(7), ..Square::blank() };
    }
    g.resize(true, 3, 3);
    let showing =
        |g: &Grid| g.rows.iter().filter(|r| r.iter().any(|c| c.graphics)).count();
    assert_eq!(showing(&g), 1);
    g.resize(true, 3, 8);
    assert_eq!(showing(&g), 1);
    let row = g.rows.iter().find(|r| r.iter().any(|c| c.graphics)).unwrap();
    let covered: Vec<bool> = row.iter().map(|c| c.extras_id == Some(7)).collect();
    assert_eq!(covered, [false, true, true, true, true, false, false, false]);
}

#[test]
fn a_resize_keeps_the_template() {
    let template = Square { content: 9, bg_only: true, ..Square::blank() };
    for (lines, columns) in [(2, 3), (2, 9), (1, 6), (4, 8), (2, 6)] {
        let mut g = grid(&["abcdef", "uvwxyz", "xy"], 2, 6, (1, 2));
        g.cursor.template = template;
        g.resize(true, lines, columns);
        assert_eq!(g.cursor.template, template);
        assert_eq!(g.saved_cursor.template, Square::blank());
        assert_eq!((g.lines, g.columns), (lines, columns));
        // What a resize adds is blank, whatever is written next.
        assert!(g.rows.iter().all(|r| r.len() == columns && r.iter().all(|c| c.content != 9)));
    }
}
