use mosh::cell::Attribute;
use mosh::dispatcher::{Dispatcher, FunctionType, MAX_PARAM_BYTES};
use mosh::framebuffer::Framebuffer;

fn dispatch_csi(fb: &mut Framebuffer, params: &str, final_ch: char) -> Dispatcher {
    let mut d = Dispatcher::new();
    for c in params.chars() {
        if c.is_ascii_digit() || c == ';' {
            d.new_param_char(c);
        } else {
            d.collect(c);
        }
    }
    d.dispatch(FunctionType::Csi, final_ch, fb);
    d
}

#[test]
fn absent_parameters_fall_back_to_the_default() {
    let d = Dispatcher::new();
    assert_eq!(d.getparam(0, 7), 7);
    // An empty parameter string still yields one (empty) parameter.
    assert_eq!(d.param_count(), 1);
}

#[test]
fn zero_and_empty_parameters_use_the_default() {
    let mut d = Dispatcher::new();
    for c in "0;;5".chars() {
        d.new_param_char(c);
    }
    assert_eq!(d.param_count(), 3);
    assert_eq!(d.getparam(0, 9), 9); // 0 is below 1, so the default wins
    assert_eq!(d.getparam(1, 9), 9); // empty
    assert_eq!(d.getparam(2, 9), 5);
}

#[test]
fn oversized_parameters_are_clamped_to_the_default() {
    let mut d = Dispatcher::new();
    for c in "999999".chars() {
        d.new_param_char(c);
    }
    // Beyond PARAM_MAX, so it must not drive a long loop.
    assert_eq!(d.getparam(0, 1), 1);
}

#[test]
fn the_parameter_string_is_bounded() {
    let mut d = Dispatcher::new();
    for _ in 0..500 {
        d.new_param_char('1');
    }
    assert!(d.param_bytes() <= MAX_PARAM_BYTES);
}

#[test]
fn cursor_movement_is_relative_or_absolute() {
    let mut fb = Framebuffer::new(20, 10);
    dispatch_csi(&mut fb, "5", 'B');
    assert_eq!(fb.ds.cursor_row(), 5);
    dispatch_csi(&mut fb, "2", 'A');
    assert_eq!(fb.ds.cursor_row(), 3);
    dispatch_csi(&mut fb, "4", 'C');
    assert_eq!(fb.ds.cursor_col(), 4);

    dispatch_csi(&mut fb, "1;1", 'H');
    assert_eq!((fb.ds.cursor_row(), fb.ds.cursor_col()), (0, 0));
}

#[test]
fn erase_in_line_honours_its_three_modes() {
    let mut fb = Framebuffer::new(5, 1);
    let fill = |fb: &mut Framebuffer| {
        for c in 0..5 {
            fb.reset_cell(0, c);
            fb.mutable_cell(0, c).append('x');
        }
    };

    fill(&mut fb);
    fb.ds.move_col(2, false, false);
    dispatch_csi(&mut fb, "0", 'K');
    assert_eq!(fb.cell(0, 1).unwrap().contents(), "x");
    assert!(fb.cell(0, 2).unwrap().is_empty());
    assert!(fb.cell(0, 4).unwrap().is_empty());

    fill(&mut fb);
    fb.ds.move_col(2, false, false);
    dispatch_csi(&mut fb, "1", 'K');
    assert!(fb.cell(0, 0).unwrap().is_empty());
    assert!(fb.cell(0, 2).unwrap().is_empty());
    assert_eq!(fb.cell(0, 3).unwrap().contents(), "x");

    fill(&mut fb);
    dispatch_csi(&mut fb, "2", 'K');
    for c in 0..5 {
        assert!(fb.cell(0, c).unwrap().is_empty());
    }
}

#[test]
fn sgr_applies_attributes_and_colours() {
    let mut fb = Framebuffer::new(10, 2);
    dispatch_csi(&mut fb, "1", 'm');
    assert!(fb.ds.renditions().attribute(Attribute::Bold));

    dispatch_csi(&mut fb, "0", 'm');
    assert!(!fb.ds.renditions().attribute(Attribute::Bold));
}

#[test]
fn sgr_256_colour_treats_zero_as_a_colour_not_a_reset() {
    let mut fb = Framebuffer::new(10, 2);
    dispatch_csi(&mut fb, "1;38;5;0", 'm');
    // Bold must survive: the 0 belongs to the colour, not to a reset.
    assert!(fb.ds.renditions().attribute(Attribute::Bold));
    assert_eq!(fb.ds.renditions().sgr(), "\x1b[0;1;30m");
}

#[test]
fn sgr_true_colour_consumes_five_parameters() {
    let mut fb = Framebuffer::new(10, 2);
    dispatch_csi(&mut fb, "38;2;10;20;30;1", 'm');
    assert_eq!(fb.ds.renditions().sgr(), "\x1b[0;1;38;2;10;20;30m");
}

#[test]
fn unknown_functions_clear_the_wrap_state() {
    let mut fb = Framebuffer::new(10, 2);
    fb.ds.next_print_will_wrap = true;
    dispatch_csi(&mut fb, "", 'Q'); // not a function we implement
    assert!(!fb.ds.next_print_will_wrap);
}

#[test]
fn sgr_and_tab_preserve_the_wrap_state() {
    let mut fb = Framebuffer::new(10, 2);
    fb.ds.next_print_will_wrap = true;
    dispatch_csi(&mut fb, "1", 'm');
    assert!(fb.ds.next_print_will_wrap, "SGR cleared the wrap state");

    fb.ds.next_print_will_wrap = true;
    let mut d = Dispatcher::new();
    d.dispatch(FunctionType::Control, '\t', &mut fb);
    assert!(fb.ds.next_print_will_wrap, "HT cleared the wrap state");
}

#[test]
fn device_attributes_reply_as_a_vt220() {
    let mut fb = Framebuffer::new(10, 2);
    let mut d = dispatch_csi(&mut fb, "", 'c');
    assert_eq!(d.take_reply(), "\x1b[?62c");
}

#[test]
fn cursor_position_report_is_one_based() {
    let mut fb = Framebuffer::new(10, 5);
    fb.ds.move_row(2, false);
    fb.ds.move_col(3, false, false);
    let mut d = dispatch_csi(&mut fb, "6", 'n');
    assert_eq!(d.take_reply(), "\x1b[3;4R");
}

#[test]
fn private_modes_set_and_clear() {
    let mut fb = Framebuffer::new(10, 5);
    let mut d = Dispatcher::new();
    d.collect('?');
    d.new_param_char('2');
    d.new_param_char('5');
    d.dispatch(FunctionType::Csi, 'l', &mut fb);
    assert!(!fb.ds.modes.cursor_visible);

    let mut d = Dispatcher::new();
    d.collect('?');
    d.new_param_char('2');
    d.new_param_char('5');
    d.dispatch(FunctionType::Csi, 'h', &mut fb);
    assert!(fb.ds.modes.cursor_visible);
}

#[test]
fn scrolling_region_rejects_invalid_ranges() {
    let mut fb = Framebuffer::new(10, 10);
    dispatch_csi(&mut fb, "5;2", 'r'); // bottom above top
    assert_eq!(fb.ds.scrolling_region_top_row(), 0);
    assert_eq!(fb.ds.scrolling_region_bottom_row(), 9);

    dispatch_csi(&mut fb, "2;5", 'r');
    assert_eq!(fb.ds.scrolling_region_top_row(), 1);
    assert_eq!(fb.ds.scrolling_region_bottom_row(), 4);
}

#[test]
fn decaln_fills_the_screen() {
    let mut fb = Framebuffer::new(4, 3);
    let mut d = Dispatcher::new();
    d.collect('#');
    d.dispatch(FunctionType::Escape, '8', &mut fb);
    for y in 0..3 {
        for x in 0..4 {
            assert_eq!(fb.cell(y, x).unwrap().contents(), "E");
        }
    }
}

#[test]
fn osc_sets_window_title_and_icon_name() {
    let mut fb = Framebuffer::new(10, 2);
    let mut d = Dispatcher::new();
    d.osc_start();
    for c in "0;hello".chars() {
        d.osc_put(c);
    }
    d.osc_dispatch(&mut fb);
    assert_eq!(fb.window_title(), &['h', 'e', 'l', 'l', 'o']);
    assert_eq!(fb.icon_name(), &['h', 'e', 'l', 'l', 'o']);
    assert!(fb.is_title_initialized());
}

#[test]
fn osc_2_sets_only_the_title() {
    let mut fb = Framebuffer::new(10, 2);
    let mut d = Dispatcher::new();
    d.osc_start();
    for c in "2;t".chars() {
        d.osc_put(c);
    }
    d.osc_dispatch(&mut fb);
    assert_eq!(fb.window_title(), &['t']);
    assert!(fb.icon_name().is_empty());
}

#[test]
fn osc_52_sets_the_clipboard() {
    let mut fb = Framebuffer::new(10, 2);
    let mut d = Dispatcher::new();
    d.osc_start();
    for c in "52;c;aGk=".chars() {
        d.osc_put(c);
    }
    d.osc_dispatch(&mut fb);
    assert_eq!(fb.clipboard(), &['c', ';', 'a', 'G', 'k', '=']);
    assert_eq!(fb.clipboard_seq(), 1);
}

#[test]
fn osc_8_sets_and_clears_a_hyperlink() {
    let mut fb = Framebuffer::new(10, 2);
    let mut d = Dispatcher::new();
    d.osc_start();
    for c in "8;id=1;http://x".chars() {
        d.osc_put(c);
    }
    d.osc_dispatch(&mut fb);
    assert!(!fb.ds.hyperlink().is_empty());
    assert_eq!(fb.ds.hyperlink().osc8(), "\x1b]8;id=1;http://x\x1b\\");

    // An empty URL closes the link.
    let mut d = Dispatcher::new();
    d.osc_start();
    for c in "8;;".chars() {
        d.osc_put(c);
    }
    d.osc_dispatch(&mut fb);
    assert!(fb.ds.hyperlink().is_empty());
}

#[test]
fn malformed_osc_8_is_ignored() {
    let mut fb = Framebuffer::new(10, 2);
    for payload in ["8", "8;", "8;onlyone"] {
        let mut d = Dispatcher::new();
        d.osc_start();
        for c in payload.chars() {
            d.osc_put(c);
        }
        d.osc_dispatch(&mut fb);
        assert!(fb.ds.hyperlink().is_empty(), "{payload} set a hyperlink");
    }
}

#[test]
fn colour_queries_are_forwarded_verbatim() {
    let mut fb = Framebuffer::new(10, 2);
    let mut d = Dispatcher::new();
    d.osc_start();
    for c in "4;1;?".chars() {
        d.osc_put(c);
    }
    d.osc_dispatch(&mut fb);
    assert_eq!(fb.color_queries(), "\x1b]4;1;?\x1b\\");

    // A dynamic colour query, e.g. the default background.
    let mut fb = Framebuffer::new(10, 2);
    let mut d = Dispatcher::new();
    d.osc_start();
    for c in "11;?".chars() {
        d.osc_put(c);
    }
    d.osc_dispatch(&mut fb);
    assert_eq!(fb.color_queries(), "\x1b]11;?\x1b\\");
}

#[test]
fn a_non_query_osc_is_not_treated_as_a_colour_query() {
    let mut fb = Framebuffer::new(10, 2);
    let mut d = Dispatcher::new();
    d.osc_start();
    for c in "4;1;rgb:00/00/00".chars() {
        d.osc_put(c);
    }
    d.osc_dispatch(&mut fb);
    assert!(fb.color_queries().is_empty());
}

#[test]
fn control_characters_move_the_cursor() {
    let mut fb = Framebuffer::new(10, 5);
    fb.ds.move_col(5, false, false);

    let mut d = Dispatcher::new();
    d.dispatch(FunctionType::Control, '\r', &mut fb);
    assert_eq!(fb.ds.cursor_col(), 0);

    let mut d = Dispatcher::new();
    d.dispatch(FunctionType::Control, '\n', &mut fb);
    assert_eq!(fb.ds.cursor_row(), 1);

    let mut d = Dispatcher::new();
    d.dispatch(FunctionType::Control, '\x07', &mut fb);
    assert_eq!(fb.bell_count(), 1);
}

#[test]
fn erase_character_stops_at_the_screen_edge() {
    let mut fb = Framebuffer::new(5, 1);
    for c in 0..5 {
        fb.mutable_cell(0, c).append('x');
    }
    fb.ds.move_col(3, false, false);
    dispatch_csi(&mut fb, "100", 'X');
    assert_eq!(fb.cell(0, 2).unwrap().contents(), "x");
    assert!(fb.cell(0, 3).unwrap().is_empty());
    assert!(fb.cell(0, 4).unwrap().is_empty());
}
