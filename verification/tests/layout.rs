use stepwise::terminal::layout::{compact_rows, hidden_characters, layout, shown, Place};
use stepwise::terminal::scroll::Scroll;

fn place(column: u16, row: u16, cells: u16) -> Place {
    Place { column, row, cells }
}

#[test]
fn a_newline_or_the_right_edge_starts_a_row() {
    let (places, rows) = layout(&"ab\ncd".chars().collect(), 10);
    assert_eq!(rows, 2);
    assert_eq!(places, vec![place(0, 0, 1), place(1, 0, 1), place(0, 1, 0), place(0, 1, 1), place(1, 1, 1)]);
    // Each of these takes two cells: a row of five holds two of them.
    let (places, rows) = layout(&"中文字".chars().collect(), 5);
    assert_eq!(rows, 2);
    assert_eq!(places, vec![place(0, 0, 2), place(2, 0, 2), place(0, 1, 2)]);
    // A character wider than the whole row still starts an empty row, clipped.
    let (places, rows) = layout(&"中".chars().collect(), 1);
    assert_eq!(rows, 1);
    assert_eq!(places, vec![place(0, 0, 1)]);
    let (places, rows) = layout(&Vec::new(), 8);
    assert!(places.is_empty());
    assert_eq!(rows, 1);
}

#[test]
fn a_long_typed_line_scrolls_left_until_it_fits() {
    assert_eq!(hidden_characters("abcdef", 4), 2);
    assert_eq!(hidden_characters("abc", 4), 0);
    assert_eq!(hidden_characters("中文字", 3), 2);
    assert_eq!(hidden_characters("abc", 0), 3);
}

#[test]
fn only_the_rows_inside_the_area_are_shown() {
    assert_eq!(shown(5, 3, 4), Some(2));
    assert_eq!(shown(2, 3, 4), None);
    assert_eq!(shown(7, 3, 4), None);
}

#[test]
fn a_small_window_keeps_the_input_line_first() {
    assert_eq!(compact_rows(10, false), (1, 7, 1, 1));
    assert_eq!(compact_rows(4, false), (1, 2, 1, 0));
    assert_eq!(compact_rows(1, true), (0, 0, 1, 0));
    assert_eq!(compact_rows(1, false), (0, 1, 0, 0));
    assert_eq!(compact_rows(0, true), (0, 0, 0, 0));
}

#[test]
fn following_the_cursor_ends_the_view_on_its_row() {
    let mut scroll: Scroll = Scroll::new();
    scroll.update(20, 5);
    scroll.follow(Some(12), 5);
    assert_eq!(scroll.offset, 8);
    scroll.follow(Some(3), 5);
    assert_eq!(scroll.offset, 0);
    scroll.follow(None, 5);
    assert_eq!(scroll.offset, 0);
}

#[test]
fn the_cursor_row_is_on_screen_after_following_it() {
    for row in [0u16, 3, 4, 12, 19] {
        let mut scroll: Scroll = Scroll::new();
        scroll.update(20, 5);
        scroll.follow(Some(row), 5);
        assert!(shown(row, scroll.offset, 5).is_some(), "row {row}");
    }
}

#[test]
fn no_cell_is_given_past_the_right_edge() {
    for width in [0u16, 1, 2, 3, 7] {
        let text: Vec<char> = "中a文\n字bc中".chars().collect();
        let (places, _) = layout(&text, width);
        assert!(places.iter().all(|place| place.column + place.cells <= width), "width {width}");
    }
}
