use drawille::Canvas;

#[test]
fn set_then_get() {
    let mut c = Canvas::new(10, 10);
    c.set(5, 4);
    assert!(c.get(5, 4));
}

#[test]
fn unset_then_get() {
    let mut c = Canvas::new(10, 10);
    c.set(5, 4);
    c.unset(5, 4);
    assert!(!c.get(5, 4));
}

#[test]
fn toggle_twice_restores() {
    let mut c = Canvas::new(10, 10);
    c.set(5, 4);
    c.toggle(3, 3);
    c.toggle(3, 3);
    assert!(!c.get(3, 3));
    assert!(c.get(5, 4));
    c.toggle(5, 4);
    c.toggle(5, 4);
    assert!(c.get(5, 4));
}

#[test]
fn set_leaves_other_pixels_alone() {
    let mut c = Canvas::new(10, 10);
    c.set(5, 4);
    // same cell, different bit
    assert!(!c.get(4, 4));
    assert!(!c.get(5, 5));
    // different cells
    assert!(!c.get(7, 4));
    assert!(!c.get(5, 0));
}

#[test]
fn clear_empties_the_grid() {
    let mut c = Canvas::new(10, 10);
    c.set(0, 0);
    c.set(5, 4);
    c.set(9, 9);
    c.clear();
    assert!(!c.get(0, 0));
    assert!(!c.get(5, 4));
    assert!(!c.get(9, 9));
    let rows = c.rows();
    assert_eq!(rows.len(), 3);
    for row in rows {
        assert_eq!(row, "      ");
    }
}

#[test]
fn blank_frame_has_declared_dimensions() {
    let c = Canvas::new(10, 10);
    let rows = c.rows();
    assert_eq!(rows.len(), 3);
    for row in rows {
        assert_eq!(row, "      ");
    }
}

#[test]
fn single_dot_glyphs() {
    let mut c = Canvas::new(0, 0);
    c.set(0, 0);
    assert_eq!(c.frame(), "\u{2801}");
    let mut c = Canvas::new(0, 0);
    c.set(1, 0);
    assert_eq!(c.frame(), "\u{2808}");
    let mut c = Canvas::new(0, 0);
    c.set(0, 3);
    assert_eq!(c.frame(), "\u{2840}");
    let mut c = Canvas::new(0, 0);
    c.set(1, 3);
    assert_eq!(c.frame(), "\u{2880}");
}

#[test]
fn full_cell_glyph() {
    let mut c = Canvas::new(0, 0);
    for x in 0..2 {
        for y in 0..4 {
            c.set(x, y);
        }
    }
    assert_eq!(c.frame(), "\u{28FF}");
}

#[test]
fn dot_beats_character_override() {
    let mut c = Canvas::new(0, 0);
    c.set_char(0, 0, 'X');
    c.set(0, 0);
    assert_eq!(c.frame(), "\u{2801}");
}

#[test]
fn character_override_beats_dots_when_placed_later() {
    let mut c = Canvas::new(0, 0);
    c.set(0, 0);
    c.set(1, 0);
    c.set_char(0, 0, 'X');
    assert_eq!(c.frame(), "X");
}

#[test]
fn unset_keeps_character_override() {
    let mut c = Canvas::new(0, 0);
    c.set_char(0, 0, 'Z');
    c.unset(0, 0);
    assert_eq!(c.frame(), "Z");
}

#[test]
fn toggled_off_cell_renders_space() {
    let mut c = Canvas::new(0, 0);
    c.toggle(0, 0);
    assert_eq!(c.frame(), "\u{2801}");
    c.toggle(0, 0);
    assert_eq!(c.frame(), " ");
}

#[test]
fn text_places_character_at_boundary_offset() {
    let mut c = Canvas::new(0, 0);
    c.text(0, 0, 2, "AB");
    assert_eq!(c.frame(), "AB");
}

#[test]
fn text_skips_characters_past_the_boundary() {
    let mut c = Canvas::new(0, 0);
    c.text(0, 0, 1, "AB");
    assert_eq!(c.frame(), "A");
    let mut c = Canvas::new(0, 0);
    c.text(0, 0, 2, "ABC");
    assert_eq!(c.frame(), "AB");
}

#[test]
fn grid_grows_past_declared_dimensions() {
    let mut c = Canvas::new(4, 4);
    c.set(9, 9);
    let rows = c.rows();
    assert_eq!(rows.len(), 3);
    assert_eq!(rows[0].chars().count(), 5);
    assert!(c.get(9, 9));
}

#[test]
fn canonical_fixture() {
    let mut canvas = Canvas::new(10, 10);
    canvas.set(5, 4);
    canvas.line(2, 2, 8, 8);
    assert_eq!(
        canvas.frame(),
        [" \u{2884}    ", "  \u{2819}\u{2884}  ", "    \u{2801} "].join("\n")
    );
}

#[test]
fn single_point_line() {
    let mut c = Canvas::new(0, 0);
    c.line(3, 3, 3, 3);
    assert!(c.get(3, 3));
    let mut expected = Canvas::new(0, 0);
    expected.set(3, 3);
    assert_eq!(c.frame(), expected.frame());
}

#[test]
fn horizontal_line() {
    let mut c = Canvas::new(0, 0);
    c.line(0, 0, 5, 0);
    for x in 0..=5 {
        assert!(c.get(x, 0));
    }
    assert!(!c.get(6, 0));
    assert!(!c.get(0, 1));
    assert_eq!(c.frame(), "\u{2809}\u{2809}\u{2809}");
}

#[test]
fn line_endpoint_order_does_not_matter() {
    let mut a = Canvas::new(10, 10);
    a.line(2, 2, 8, 8);
    let mut b = Canvas::new(10, 10);
    b.line(8, 8, 2, 2);
    // the staircase shape is directional, but both endpoints are drawn
    assert!(a.get(2, 2) && a.get(8, 8));
    assert!(b.get(2, 2) && b.get(8, 8));
}

#[test]
fn stroke_with_pen_down_draws_the_line() {
    let mut c = Canvas::new(0, 0);
    c.stroke(true, 0, 0, 5, 0);
    for x in 0..=5 {
        assert!(c.get(x, 0));
    }
    assert_eq!(c.frame(), "\u{2809}\u{2809}\u{2809}");
}

#[test]
fn stroke_with_pen_up_changes_nothing() {
    let mut c = Canvas::new(10, 10);
    c.set(3, 3);
    let before = c.frame();
    c.stroke(false, 0, 0, 9, 9);
    assert_eq!(c.frame(), before);
    assert!(!c.get(0, 0));
    assert!(!c.get(9, 9));
    assert!(c.get(3, 3));
}

#[test]
fn frame_joins_rows_with_newlines() {
    let c = Canvas::new(4, 8);
    let rows = c.rows();
    assert_eq!(c.frame(), rows.join("\n"));
}

#[test]
fn text_and_dots_coexist_in_different_cells() {
    let mut c = Canvas::new(0, 0);
    c.text(0, 0, 10, "Hi");
    c.set(4, 0);
    assert_eq!(c.frame(), "Hi\u{2801}");
}

#[test]
fn text_below_the_first_row() {
    let mut c = Canvas::new(0, 0);
    c.text(0, 4, 0, "Q");
    assert_eq!(c.frame(), " \nQ");
}
