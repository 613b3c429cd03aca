use std::rc::Rc;

use mosh::cell::{Attribute, Cell, Hyperlink, Renditions, MAX_CELL_BYTES};
use mosh::draw_state::DrawState;
use mosh::framebuffer::{all_shared, Framebuffer, MAXIMUM_COLOR_QUERIES};
use mosh::row::Row;

#[test]
fn sgr_matches_the_documented_spelling() {
    let mut r = Renditions::new(0);
    assert_eq!(r.sgr(), "\x1b[0m");

    r.set_attribute(Attribute::Bold, true);
    assert_eq!(r.sgr(), "\x1b[0;1m");

    r.set_attribute(Attribute::Faint, true);
    r.set_attribute(Attribute::Strikethrough, true);
    assert_eq!(r.sgr(), "\x1b[0;1;2;9m");
}

#[test]
fn sgr_renders_each_colour_family() {
    // ANSI colours pass through as their own code.
    let mut r = Renditions::new(0);
    r.set_rendition(31);
    assert_eq!(r.sgr(), "\x1b[0;31m");

    // 256-colour indices above the ANSI range use the 38;5 form.
    let mut r = Renditions::new(0);
    r.set_foreground_color(200);
    assert_eq!(r.sgr(), "\x1b[0;38;5;200m");

    // True colour uses 38;2 with three components.
    let mut r = Renditions::new(0);
    r.set_foreground_color(Renditions::make_true_color(1, 2, 3) as i32);
    assert_eq!(r.sgr(), "\x1b[0;38;2;1;2;3m");

    // Backgrounds mirror foregrounds.
    let mut r = Renditions::new(0);
    r.set_background_color(200);
    assert_eq!(r.sgr(), "\x1b[0;48;5;200m");
}

#[test]
fn rendition_zero_clears_everything() {
    let mut r = Renditions::new(0);
    r.set_attribute(Attribute::Bold, true);
    r.set_rendition(31);
    r.set_rendition(0);
    assert_eq!(r.sgr(), "\x1b[0m");
}

#[test]
fn rendition_22_clears_bold_and_faint_together() {
    let mut r = Renditions::new(0);
    r.set_rendition(1);
    r.set_rendition(2);
    r.set_rendition(22);
    assert!(!r.attribute(Attribute::Bold));
    assert!(!r.attribute(Attribute::Faint));
}

#[test]
fn bright_colours_map_into_the_256_colour_space() {
    let mut r = Renditions::new(0);
    r.set_rendition(91); // bright red foreground
    assert_eq!(r.sgr(), "\x1b[0;38;5;9m");
}

#[test]
fn hyperlink_equality_compares_content_not_identity() {
    let a = Hyperlink::new("id=1".into(), "http://x".into());
    let b = Hyperlink::new("id=1".into(), "http://x".into());
    let c = Hyperlink::new("id=2".into(), "http://x".into());
    assert_eq!(a, b);
    assert_ne!(a, c);
    assert_ne!(a, Hyperlink::default());
}

#[test]
fn an_empty_url_means_no_link() {
    let h = Hyperlink::new("id=1".into(), String::new());
    assert!(h.is_empty());
    assert_eq!(h.osc8(), "\x1b]8;;\x1b\\");
}

#[test]
fn hyperlink_osc8_round_trip() {
    let h = Hyperlink::new("id=1".into(), "http://example.com".into());
    assert_eq!(h.osc8(), "\x1b]8;id=1;http://example.com\x1b\\");
}

#[test]
fn blank_cells_compare_equal_however_they_are_spelled() {
    let mut empty = Cell::new(0);
    let mut space = Cell::new(0);
    space.append(' ');
    let mut nbsp = Cell::new(0);
    nbsp.append('\u{a0}');

    assert!(empty.is_blank() && space.is_blank() && nbsp.is_blank());
    assert!(empty.contents_match(&space));
    assert!(space.contents_match(&nbsp));

    empty.append('x');
    assert!(!empty.contents_match(&space));
}

#[test]
fn a_cell_stops_accepting_combining_characters() {
    let mut c = Cell::new(0);
    for _ in 0..40 {
        if !c.is_full() {
            c.append('a');
        }
    }
    assert!(c.is_full());
    assert!(c.contents().len() <= MAX_CELL_BYTES + 4);
}

#[test]
fn rows_get_distinct_generations() {
    let a = Row::new(4, 0);
    let b = Row::new(4, 0);
    assert_ne!(a.gen, b.gen);
    // Equal contents but different generations are still unequal.
    assert_ne!(a, b);
}

#[test]
fn writing_a_shared_row_copies_it() {
    let mut fb = Framebuffer::new(4, 3);
    let snapshot = fb.clone();

    // Every row starts shared between the two framebuffers.
    assert!(Rc::ptr_eq(&fb.rows()[0], &snapshot.rows()[0]));

    fb.mutable_cell(0, 0).append('x');

    // The written row split; the others stayed shared.
    assert!(!Rc::ptr_eq(&fb.rows()[0], &snapshot.rows()[0]));
    assert!(Rc::ptr_eq(&fb.rows()[1], &snapshot.rows()[1]));
    assert!(snapshot.cell(0, 0).unwrap().is_empty());
}

#[test]
fn scrolling_moves_rows_and_blanks_the_rest() {
    let mut fb = Framebuffer::new(4, 3);
    fb.mutable_cell(0, 0).append('a');
    fb.mutable_cell(1, 0).append('b');
    fb.mutable_cell(2, 0).append('c');

    fb.scroll(1);

    assert_eq!(fb.cell(0, 0).unwrap().contents(), "b");
    assert_eq!(fb.cell(1, 0).unwrap().contents(), "c");
    assert!(fb.cell(2, 0).unwrap().is_empty());
}

#[test]
fn insert_and_delete_line_respect_the_scrolling_region() {
    let mut fb = Framebuffer::new(4, 4);
    fb.ds.set_scrolling_region(1, 2);
    fb.mutable_cell(0, 0).append('a');
    fb.mutable_cell(3, 0).append('d');

    // A line inserted outside the region must be ignored entirely.
    fb.insert_line(0, 1);
    assert_eq!(fb.cell(0, 0).unwrap().contents(), "a");
    assert_eq!(fb.cell(3, 0).unwrap().contents(), "d");
}

#[test]
fn cells_shift_on_insert_and_delete() {
    let mut fb = Framebuffer::new(3, 1);
    fb.mutable_cell(0, 0).append('a');
    fb.mutable_cell(0, 1).append('b');

    fb.insert_cell(0, 0);
    assert!(fb.cell(0, 0).unwrap().is_empty());
    assert_eq!(fb.cell(0, 1).unwrap().contents(), "a");

    fb.delete_cell(0, 0);
    assert_eq!(fb.cell(0, 0).unwrap().contents(), "a");
    assert_eq!(fb.cell(0, 1).unwrap().contents(), "b");
    // The row keeps its width.
    assert_eq!(fb.row(0).unwrap().cells.len(), 3);
}

#[test]
fn tabs_start_every_eight_columns() {
    let ds = DrawState::new(80, 24);
    assert_eq!(ds.next_tab(1), 8);
}

#[test]
fn cursor_stays_inside_the_screen() {
    let mut ds = DrawState::new(10, 5);
    ds.move_col(100, false, false);
    assert_eq!(ds.cursor_col(), 9);
    ds.move_row(100, false);
    assert_eq!(ds.cursor_row(), 4);
    ds.move_col(-100, false, false);
    assert_eq!(ds.cursor_col(), 0);
}

#[test]
fn implicit_column_moves_arm_the_wrap() {
    let mut ds = DrawState::new(10, 5);
    ds.move_col(9, false, false);
    assert!(!ds.next_print_will_wrap);
    ds.move_col(1, true, true);
    assert!(ds.next_print_will_wrap);
}

#[test]
fn saving_and_restoring_the_cursor_round_trips() {
    let mut ds = DrawState::new(10, 5);
    ds.move_col(3, false, false);
    ds.move_row(2, false);
    ds.add_rendition(1);
    ds.save_cursor();

    ds.move_col(0, false, false);
    ds.move_row(0, false);
    ds.add_rendition(0);

    ds.restore_cursor();
    assert_eq!(ds.cursor_col(), 3);
    assert_eq!(ds.cursor_row(), 2);
    assert!(ds.renditions().attribute(Attribute::Bold));
}

#[test]
fn origin_mode_confines_the_cursor_to_the_region() {
    let mut ds = DrawState::new(10, 10);
    ds.set_scrolling_region(2, 5);
    ds.origin_mode = true;
    // Row 0 in origin mode is the top of the region.
    ds.move_row(0, false);
    assert_eq!(ds.cursor_row(), 2);
    ds.move_row(100, false);
    assert_eq!(ds.cursor_row(), 5);
}

#[test]
fn resizing_preserves_contents_and_widens_rows() {
    let mut fb = Framebuffer::new(4, 2);
    fb.mutable_cell(0, 0).append('a');
    fb.resize(6, 3);

    assert_eq!(fb.ds.width(), 6);
    assert_eq!(fb.ds.height(), 3);
    assert_eq!(fb.cell(0, 0).unwrap().contents(), "a");
    assert_eq!(fb.row(0).unwrap().cells.len(), 6);
    assert_eq!(fb.rows().len(), 3);
}

#[test]
fn resize_invalidates_an_offscreen_combining_cell() {
    let mut fb = Framebuffer::new(10, 10);
    fb.ds.move_col(9, false, false);
    fb.ds.move_row(9, false);
    assert!(fb.combining_cell().is_some());

    fb.resize(4, 4);
    assert!(fb.combining_cell().is_none());
}

#[test]
fn reset_clears_the_screen_but_not_the_bell() {
    let mut fb = Framebuffer::new(4, 2);
    fb.mutable_cell(0, 0).append('a');
    fb.ring_bell();
    fb.set_window_title(vec!['x']);

    fb.reset();

    assert!(fb.cell(0, 0).unwrap().is_empty());
    assert!(fb.window_title().is_empty());
    assert_eq!(fb.bell_count(), 1);
}

#[test]
fn colour_queries_are_capped_but_still_counted() {
    let mut fb = Framebuffer::new(4, 2);
    let chunk = "x".repeat(1000);
    for _ in 0..10 {
        fb.add_color_query(&chunk);
    }
    assert!(fb.color_queries().len() <= MAXIMUM_COLOR_QUERIES);
    // The sequence number counts every query, including the dropped ones.
    assert_eq!(fb.color_query_seq(), 10);
}

#[test]
fn prefixing_the_title_keeps_icon_name_in_step() {
    let mut fb = Framebuffer::new(4, 2);
    fb.set_window_title(vec!['a']);
    fb.set_icon_name(vec!['a']);
    fb.prefix_window_title(&['[', ']']);
    assert_eq!(fb.window_title(), &['[', ']', 'a']);
    assert_eq!(fb.icon_name(), &['[', ']', 'a']);

    // When they already differ, only the title changes.
    let mut fb = Framebuffer::new(4, 2);
    fb.set_window_title(vec!['a']);
    fb.set_icon_name(vec!['b']);
    fb.prefix_window_title(&['!']);
    assert_eq!(fb.window_title(), &['!', 'a']);
    assert_eq!(fb.icon_name(), &['b']);
}

#[test]
fn framebuffers_compare_equal_after_a_clone() {
    let mut fb = Framebuffer::new(8, 4);
    fb.mutable_cell(1, 1).append('z');
    let copy = fb.clone();
    assert_eq!(fb, copy);

    let mut other = fb.clone();
    other.mutable_cell(1, 1).append('!');
    assert_ne!(fb, other);
}

#[test]
fn a_cell_reports_its_grapheme_and_bytes() {
    let mut cell = Cell::new(0);
    assert_eq!(cell.debug_contents(), "'_' ()");
    cell.append('e');
    cell.append('\u{301}');
    assert_eq!(cell.debug_contents(), "'e\u{301}' [0x65, 0xcc, 0x81]");
}

#[test]
fn without_default_tabs_a_wider_screen_has_no_new_ones() {
    let mut ds = DrawState::new(10, 2);
    ds.clear_default_tabs();
    ds.resize(40, 2);
    assert_eq!(ds.next_tab(1), 8);
    assert_eq!(ds.next_tab(2), -1);
    assert_eq!(DrawState::new(40, 2).next_tab(2), 16);
}

#[test]
fn the_pen_and_the_link_can_be_put_on_a_cell() {
    let mut fb = Framebuffer::new(4, 2);
    fb.ds.add_rendition(1);
    fb.ds.set_hyperlink(Hyperlink::new(String::new(), "http://x".to_string()));
    fb.apply_renditions_to_cell(1, 2);
    fb.apply_hyperlink_to_cell(1, 3);
    assert!(fb.cell(1, 2).unwrap().renditions().attribute(Attribute::Bold));
    assert!(fb.cell(1, 2).unwrap().hyperlink().is_empty());
    assert!(!fb.cell(1, 3).unwrap().renditions().attribute(Attribute::Bold));
    assert_eq!(fb.cell(1, 3).unwrap().hyperlink().osc8(), "\x1b]8;;http://x\x1b\\");
    assert!(fb.cell(0, 0).unwrap().hyperlink().is_empty());
}

#[test]
fn rows_are_shared_only_if_all_of_them_are() {
    assert!(all_shared(&[]));
    assert!(all_shared(&[true, true]));
    assert!(!all_shared(&[true, false]));
    assert!(!all_shared(&[false, true]));
    let fb = Framebuffer::new(4, 2);
    assert!(fb.shares_rows(&fb.clone()));
    assert!(!fb.shares_rows(&Framebuffer::new(4, 3)));
}
