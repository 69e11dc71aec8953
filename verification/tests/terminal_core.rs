use terminal::terminal::cell::{color_to_rgb, Cell, Color};
use terminal::terminal::grid::Grid;
use terminal::terminal::parser::{Action, Parser};
use terminal::terminal::selection::Selection;
use terminal::terminal::{MouseEncoding, MouseMode, Terminal};

fn row_text(t: &Terminal, row: usize) -> String {
    let mut s = String::new();
    for c in 0..t.grid.cols {
        s.push(t.grid.cell(row, c).ch);
    }
    s.trim_end().to_string()
}

fn feed_all(data: &[u8]) -> Vec<Action> {
    let mut p = Parser::new();
    p.feed(data)
}

#[test]
fn parser_prints_ascii() {
    assert_eq!(feed_all(b"ab"), vec![Action::Print('a'), Action::Print('b')]);
}

#[test]
fn parser_csi_with_params() {
    let acts = feed_all(b"\x1b[1;31m");
    assert_eq!(
        acts,
        vec![Action::CsiDispatch { params: vec![1, 31], private_marker: None, intermediates: vec![], final_byte: b'm' }]
    );
}

#[test]
fn parser_private_marker() {
    let acts = feed_all(b"\x1b[?1049h");
    assert_eq!(
        acts,
        vec![Action::CsiDispatch { params: vec![1049], private_marker: Some(b'?'), intermediates: vec![], final_byte: b'h' }]
    );
}

#[test]
fn parser_sequence_split_across_chunks() {
    let mut p = Parser::new();
    assert_eq!(p.feed(b"x\x1b[3"), vec![Action::Print('x')]);
    assert_eq!(
        p.feed(b"1m"),
        vec![Action::CsiDispatch { params: vec![31], private_marker: None, intermediates: vec![], final_byte: b'm' }]
    );
}

#[test]
fn parser_utf8_character() {
    assert_eq!(feed_all("é日".as_bytes()), vec![Action::Print('é'), Action::Print('日')]);
}

#[test]
fn parser_utf8_split_across_chunks() {
    let bytes = "日".as_bytes();
    let mut p = Parser::new();
    assert_eq!(p.feed(&bytes[..1]), vec![]);
    assert_eq!(p.feed(&bytes[1..]), vec![Action::Print('日')]);
}

#[test]
fn parser_osc_title() {
    assert_eq!(feed_all(b"\x1b]0;hello\x07"), vec![Action::OscDispatch(b"0;hello".to_vec())]);
}

#[test]
fn parser_osc_terminated_by_st() {
    assert_eq!(feed_all(b"\x1b]2;t\x1b\\"), vec![Action::OscDispatch(b"2;t".to_vec())]);
}

#[test]
fn parser_esc_and_c0() {
    assert_eq!(
        feed_all(b"\x1b7\n"),
        vec![Action::EscDispatch { intermediates: vec![], final_byte: b'7' }, Action::C0Control(0x0A)]
    );
}

#[test]
fn parser_huge_parameter_saturates() {
    let acts = feed_all(b"\x1b[99999999999A");
    assert_eq!(
        acts,
        vec![Action::CsiDispatch { params: vec![i32::MAX], private_marker: None, intermediates: vec![], final_byte: b'A' }]
    );
}

#[test]
fn terminal_prints_text() {
    let mut t = Terminal::new(10, 3);
    t.process(b"hello");
    assert_eq!(row_text(&t, 0), "hello");
    assert_eq!(t.grid.cursor.col, 5);
    assert_eq!(t.grid.cursor.row, 0);
}

#[test]
fn terminal_newline_and_carriage_return() {
    let mut t = Terminal::new(10, 3);
    t.process(b"ab\r\ncd");
    assert_eq!(row_text(&t, 0), "ab");
    assert_eq!(row_text(&t, 1), "cd");
    assert_eq!((t.grid.cursor.row, t.grid.cursor.col), (1, 2));
}

#[test]
fn terminal_auto_wrap() {
    let mut t = Terminal::new(5, 3);
    t.process(b"abcdefg");
    assert_eq!(row_text(&t, 0), "abcde");
    assert_eq!(row_text(&t, 1), "fg");
}

#[test]
fn terminal_no_wrap_when_disabled() {
    let mut t = Terminal::new(5, 3);
    t.process(b"\x1b[?7labcdefg");
    assert_eq!(row_text(&t, 0), "abcdg");
    assert_eq!(row_text(&t, 1), "");
}

#[test]
fn terminal_sgr_colors() {
    let mut t = Terminal::new(10, 2);
    t.process(b"\x1b[31;1mX\x1b[0mY");
    let x = *t.grid.cell(0, 0);
    assert_eq!(x.fg, Color::Indexed(1));
    assert!(x.attrs.bold);
    let y = *t.grid.cell(0, 1);
    assert_eq!(y.fg, Color::Default);
    assert!(!y.attrs.bold);
}

#[test]
fn terminal_sgr_truecolor_and_256() {
    let mut t = Terminal::new(10, 2);
    t.process(b"\x1b[38;2;10;20;30mA\x1b[48;5;196mB");
    assert_eq!(t.grid.cell(0, 0).fg, Color::Rgb(10, 20, 30));
    assert_eq!(t.grid.cell(0, 1).bg, Color::Indexed(196));
}

#[test]
fn terminal_cursor_movement_clamps() {
    let mut t = Terminal::new(10, 5);
    t.process(b"\x1b[3;4H");
    assert_eq!((t.grid.cursor.row, t.grid.cursor.col), (2, 3));
    t.process(b"\x1b[99B");
    assert_eq!(t.grid.cursor.row, 4);
    t.process(b"\x1b[99D");
    assert_eq!(t.grid.cursor.col, 0);
}

#[test]
fn terminal_erase_display() {
    let mut t = Terminal::new(5, 2);
    t.process(b"abc\r\ndef\x1b[2J");
    assert_eq!(row_text(&t, 0), "");
    assert_eq!(row_text(&t, 1), "");
}

#[test]
fn terminal_erase_line_to_end() {
    let mut t = Terminal::new(6, 1);
    t.process(b"abcdef\x1b[1;3H\x1b[K");
    assert_eq!(row_text(&t, 0), "ab");
}

#[test]
fn terminal_cursor_position_report() {
    let mut t = Terminal::new(10, 5);
    t.process(b"\x1b[2;3H\x1b[6n");
    assert_eq!(t.responses, vec![b"\x1b[2;3R".to_vec()]);
}

#[test]
fn terminal_device_attributes() {
    let mut t = Terminal::new(10, 5);
    t.process(b"\x1b[c");
    assert_eq!(t.responses, vec![b"\x1b[?62;22c".to_vec()]);
}

#[test]
fn terminal_osc_title() {
    let mut t = Terminal::new(10, 5);
    t.process(b"\x1b]2;my title\x07");
    assert_eq!(t.title, "my title");
}

#[test]
fn terminal_modes() {
    let mut t = Terminal::new(10, 5);
    t.process(b"\x1b[?1h\x1b[?2004h\x1b[?1002h\x1b[?1006h");
    assert!(t.modes.cursor_keys_application);
    assert!(t.modes.bracketed_paste);
    assert_eq!(t.modes.mouse_mode, MouseMode::ButtonMotion);
    assert_eq!(t.modes.mouse_encoding, MouseEncoding::Sgr);
    t.process(b"\x1b[?1002l");
    assert_eq!(t.modes.mouse_mode, MouseMode::Off);
}

#[test]
fn terminal_alt_screen_restores_main() {
    let mut t = Terminal::new(10, 3);
    t.process(b"main");
    t.process(b"\x1b[?1049h");
    assert!(t.grid.is_alt_screen);
    assert_eq!(row_text(&t, 0), "");
    t.process(b"alt text");
    t.process(b"\x1b[?1049l");
    assert!(!t.grid.is_alt_screen);
    assert_eq!(row_text(&t, 0), "main");
    assert_eq!((t.grid.cursor.row, t.grid.cursor.col), (0, 4));
}

#[test]
fn terminal_scrollback_collects_lines() {
    let mut t = Terminal::new(5, 2);
    t.process(b"one\r\ntwo\r\nthree");
    assert_eq!(t.grid.scrollback_len(), 1);
    assert_eq!(t.grid.absolute_line(0)[0].ch, 'o');
    assert_eq!(row_text(&t, 0), "two");
    assert_eq!(row_text(&t, 1), "three");
}

#[test]
fn terminal_scrollback_limit_respected() {
    let mut t = Terminal::new(5, 1);
    t.grid.scrollback_limit = 2;
    t.process(b"a\r\nb\r\nc\r\nd");
    assert_eq!(t.grid.scrollback_len(), 2);
    assert_eq!(t.grid.absolute_line(0)[0].ch, 'b');
    assert_eq!(t.grid.absolute_line(1)[0].ch, 'c');
}

#[test]
fn terminal_scroll_region() {
    let mut t = Terminal::new(5, 4);
    t.process(b"1\r\n2\r\n3\r\n4\x1b[2;3r\x1b[3;1H\n");
    assert_eq!(row_text(&t, 0), "1");
    assert_eq!(row_text(&t, 1), "3");
    assert_eq!(row_text(&t, 2), "");
    assert_eq!(row_text(&t, 3), "4");
    assert_eq!(t.grid.scrollback_len(), 0);
}

#[test]
fn terminal_full_reset() {
    let mut t = Terminal::new(5, 2);
    t.process(b"\x1b]0;x\x07abc\x1bc");
    assert_eq!(row_text(&t, 0), "");
    assert_eq!(t.title, "");
}

#[test]
fn terminal_processing_in_chunks_matches_whole() {
    let data: &[u8] = b"ab\x1b[31mcd\x1b[2;1Hef\r\n\xe6\x97\xa5\x1b]0;t\x07";
    for split in 0..data.len() {
        let mut whole = Terminal::new(8, 4);
        whole.process(data);
        let mut parts = Terminal::new(8, 4);
        parts.process(&data[..split]);
        parts.process(&data[split..]);
        for r in 0..4 {
            assert_eq!(row_text(&whole, r), row_text(&parts, r));
            for c in 0..8 {
                assert_eq!(whole.grid.cell(r, c), parts.grid.cell(r, c));
            }
        }
        assert_eq!(whole.title, parts.title);
        assert_eq!(whole.grid.cursor, parts.grid.cursor);
    }
}

#[test]
fn terminal_wide_character_takes_two_cells() {
    let mut t = Terminal::new(6, 1);
    t.process("日x".as_bytes());
    assert_eq!(t.grid.cell(0, 0).ch, '日');
    assert_eq!(t.grid.cell(0, 0).width, 2);
    assert_eq!(t.grid.cell(0, 1).width, 0);
    assert_eq!(t.grid.cell(0, 2).ch, 'x');
}

#[test]
fn terminal_resize_keeps_content() {
    let mut t = Terminal::new(5, 2);
    t.process(b"abc");
    t.resize(3, 4);
    assert_eq!(t.grid.rows, 4);
    assert_eq!(t.grid.cols, 3);
    assert_eq!(row_text(&t, 0), "abc");
}

#[test]
fn terminal_is_consistent_and_can_process() {
    let t = Terminal::new(5, 2);
    assert!(t.is_consistent());
    assert!(t.can_process(b"hello\x1b[2J"));
}

#[test]
fn grid_viewport_scrolling() {
    let mut g = Grid::new(3, 1);
    g.scroll_up();
    g.scroll_up();
    g.scroll_up();
    assert_eq!(g.scrollback_len(), 3);
    g.scroll_viewport_up(2);
    assert_eq!(g.scroll_offset, 2);
    g.scroll_viewport_up(10);
    assert_eq!(g.scroll_offset, 3);
    g.scroll_viewport_down(1);
    assert_eq!(g.scroll_offset, 2);
    g.scroll_viewport_to_bottom();
    assert_eq!(g.scroll_offset, 0);
    assert_eq!(g.viewport_to_absolute(0), 3);
}

#[test]
fn grid_save_restore_cursor() {
    let mut g = Grid::new(5, 5);
    g.cursor.row = 2;
    g.cursor.col = 3;
    g.save_cursor();
    g.cursor.row = 0;
    g.restore_cursor();
    assert_eq!((g.cursor.row, g.cursor.col), (2, 3));
}

#[test]
fn grid_alt_screen_round_trip() {
    let mut g = Grid::new(3, 2);
    g.set_cell(0, 0, Cell { ch: 'z', ..Cell::blank() });
    g.enter_alt_screen();
    g.set_cell(1, 1, Cell { ch: 'q', ..Cell::blank() });
    g.exit_alt_screen();
    assert_eq!(g.cell(0, 0).ch, 'z');
    assert_eq!(g.cell(1, 1).ch, ' ');
}

#[test]
fn color_resolution() {
    assert_eq!(color_to_rgb(&Color::Default, true), (204, 204, 204));
    assert_eq!(color_to_rgb(&Color::Default, false), (12, 12, 12));
    assert_eq!(color_to_rgb(&Color::Indexed(1), true), (205, 49, 49));
    assert_eq!(color_to_rgb(&Color::Indexed(196), true), (255, 0, 0));
    assert_eq!(color_to_rgb(&Color::Indexed(16), true), (0, 0, 0));
    assert_eq!(color_to_rgb(&Color::Indexed(232), true), (8, 8, 8));
    assert_eq!(color_to_rgb(&Color::Indexed(255), true), (238, 238, 238));
    assert_eq!(color_to_rgb(&Color::Rgb(1, 2, 3), false), (1, 2, 3));
}

#[test]
fn selection_order_and_contains() {
    let mut s = Selection::default();
    assert!(!s.is_active());
    s.start(5, 3);
    s.update(2, 7);
    assert!(s.is_active());
    assert_eq!(s.ordered(), Some(((2, 7), (5, 3))));
    assert!(s.contains(3, 0));
    assert!(s.contains(2, 7));
    assert!(!s.contains(2, 6));
    assert!(s.contains(5, 3));
    assert!(!s.contains(5, 4));
    s.clear();
    assert!(!s.is_active());
    assert_eq!(s.ordered(), None);
}

#[test]
fn selection_symmetric_in_its_ends() {
    let a = Selection { anchor: Some((1, 4)), end: Some((3, 2)) };
    let b = Selection { anchor: Some((3, 2)), end: Some((1, 4)) };
    for r in 0..5 {
        for c in 0..6 {
            assert_eq!(a.contains(r, c), b.contains(r, c));
        }
    }
}

#[test]
fn selection_extracts_text() {
    let mut t = Terminal::new(6, 3);
    t.process(b"hello \r\nworld");
    let mut s = Selection::default();
    s.start(0, 1);
    s.update(1, 2);
    assert_eq!(s.extract_text(&t.grid), "ello\nwor");
    let empty = Selection::default();
    assert_eq!(empty.extract_text(&t.grid), "");
}

#[test]
fn grid_cell_mut_changes_in_place() {
    let mut g = Grid::new(4, 2);
    g.cell_mut(1, 2).ch = 'k';
    assert_eq!(g.cell(1, 2).ch, 'k');
    assert_eq!(g.cell(0, 2).ch, ' ');
}

#[test]
fn split_output_after_reset_matches_whole() {
    let a: &[u8] = b"\x1b]0;old\x07ab\x1bcde\x1b[6n";
    let b: &[u8] = b"\x1b[1mf\x1b]2;new\x07\r\ng";
    let mut split = Terminal::new(10, 3);
    split.process(a);
    split.process(b);
    let mut whole = Terminal::new(10, 3);
    let mut ab = a.to_vec();
    ab.extend_from_slice(b);
    whole.process(&ab);
    for r in 0..3 {
        assert_eq!(row_text(&split, r), row_text(&whole, r));
    }
    assert_eq!(row_text(&whole, 0), "def");
    assert_eq!(split.pen, whole.pen);
    assert_eq!(split.title, whole.title);
    assert_eq!(split.title, "new");
    assert_eq!(split.responses, whole.responses);
    assert_eq!((split.grid.cursor.row, split.grid.cursor.col), (whole.grid.cursor.row, whole.grid.cursor.col));
}

#[test]
fn process_checked_feeds_consistent_terminals() {
    let mut t = Terminal::new(10, 3);
    assert!(t.process_checked(b"hi\x1b[2;3Hx"));
    assert_eq!(row_text(&t, 0), "hi");
    assert_eq!(row_text(&t, 1), "  x");
    let mut narrow = Terminal::new(1, 2);
    assert!(!narrow.process_checked("\u{65e5}".as_bytes()));
    assert_eq!(row_text(&narrow, 0), "");
}

#[test]
fn parser_decodes_what_utf8_encodes() {
    let s = "a\u{e9}\u{65e5}\u{1f600} z\u{80}";
    let expected: Vec<Action> = s.chars().map(Action::Print).collect();
    assert_eq!(feed_all(s.as_bytes()), expected);
}

#[test]
fn parser_output_stays_within_limits() {
    let mut data = b"\x1b]0;".to_vec();
    data.extend(std::iter::repeat(b'x').take(5000));
    data.push(0x07);
    data.extend_from_slice(b"\x1b[?25h\x1b[<1;2m");
    let actions = feed_all(&data);
    assert!(actions.len() <= data.len());
    match &actions[0] {
        Action::OscDispatch(d) => assert_eq!(d.len(), 4096),
        other => panic!("unexpected {:?}", other),
    }
    for a in &actions {
        if let Action::CsiDispatch { private_marker: Some(p), .. } = a {
            assert!([b'<', b'=', b'>', b'?'].contains(p));
        }
    }
}

#[test]
fn cursor_report_gives_back_the_position() {
    let mut t = Terminal::new(20, 10);
    t.process(b"\x1b[7;12H\x1b[6n");
    assert_eq!((t.grid.cursor.row, t.grid.cursor.col), (6, 11));
    assert_eq!(t.responses.last().unwrap(), &b"\x1b[7;12R".to_vec());
    t.process(b"\x1b[3A");
    assert_eq!((t.grid.cursor.row, t.grid.cursor.col), (3, 11));
    t.process(b"\x1b[99B");
    assert_eq!(t.grid.cursor.row, 9);
    t.process(b"\x1b[A");
    assert_eq!(t.grid.cursor.row, 8);
}

#[test]
fn sgr_bright_colors_touch_only_the_pen() {
    let mut t = Terminal::new(10, 2);
    t.process(b"\x1b[93m");
    assert_eq!(t.pen.fg, Color::Indexed(11));
    t.process(b"\x1b[104m");
    assert_eq!(t.pen.bg, Color::Indexed(12));
    t.process(b"\x1b[1;0;4m");
    assert_eq!(t.pen.fg, Color::Default);
    assert_eq!(t.pen.bg, Color::Default);
    assert!(t.pen.attrs.underline && !t.pen.attrs.bold);
    assert_eq!((t.grid.cursor.row, t.grid.cursor.col), (0, 0));
}

#[test]
fn alt_screen_1049_restores_screen_and_cursor() {
    let mut t = Terminal::new(10, 3);
    t.process(b"main\r\nrow2\x1b[2;3H");
    t.process(b"\x1b[?1049hALT\r\n\x1b[2Jjunk\x1b7\x1b[3;5H");
    assert!(t.grid.is_alt_screen);
    t.process(b"\x1b[?1049l");
    assert!(!t.grid.is_alt_screen);
    assert_eq!(row_text(&t, 0), "main");
    assert_eq!(row_text(&t, 1), "row2");
    assert_eq!((t.grid.cursor.row, t.grid.cursor.col), (1, 2));
}

#[test]
fn any_output_returns_the_view_to_the_live_screen() {
    let mut t = Terminal::new(10, 2);
    for _ in 0..6 {
        t.process(b"x\r\n");
    }
    t.grid.scroll_viewport_up(3);
    assert_eq!(t.grid.scroll_offset, 3);
    t.process(b"\x07");
    assert_eq!(t.grid.scroll_offset, 0);
}

#[test]
fn csi_parameters_are_decimal_field_values() {
    let actions = feed_all(b"\x1b[12;0;2147483647H");
    assert_eq!(actions.len(), 1);
    match &actions[0] {
        Action::CsiDispatch { params, private_marker, intermediates, final_byte } => {
            assert_eq!(params, &vec![12, 0, 2147483647]);
            assert_eq!(*private_marker, None);
            assert!(intermediates.is_empty());
            assert_eq!(*final_byte, b'H');
        },
        other => panic!("unexpected {:?}", other),
    }
}

#[test]
fn osc_sets_title_only_for_kinds_0_and_2() {
    let mut t = Terminal::new(10, 2);
    t.process("\x1b]2;h\u{e9}llo \u{65e5}\x07".as_bytes());
    assert_eq!(t.title, "h\u{e9}llo \u{65e5}");
    t.process(b"\x1b]1;icon\x07");
    assert_eq!(t.title, "h\u{e9}llo \u{65e5}");
    t.process(b"\x1b]0;plain\x07");
    assert_eq!(t.title, "plain");
}

#[test]
fn split_after_reset_matches_whole_when_second_piece_reads_alike() {
    let a: &[u8] = b"ab\x1bcx\x1b[3";
    for b in [&b""[..], &b"\x1b[1mq\r\nz"[..], &b"\x1b]0;t\x07k"[..]] {
        let mut split = Terminal::new(8, 3);
        split.process(a);
        split.process(b);
        let mut whole = Terminal::new(8, 3);
        let mut ab = a.to_vec();
        ab.extend_from_slice(b);
        whole.process(&ab);
        for r in 0..3 {
            assert_eq!(row_text(&split, r), row_text(&whole, r));
        }
        assert_eq!(split.pen, whole.pen);
        assert_eq!(split.title, whole.title);
        assert_eq!(split.responses, whole.responses);
    }
}

#[test]
fn csi_empty_fields_count_zero() {
    let params_of = |data: &[u8]| match &feed_all(data)[..] {
        [Action::CsiDispatch { params, .. }] => params.clone(),
        other => panic!("unexpected {:?}", other),
    };
    assert_eq!(params_of(b"\x1b[5;H"), vec![5, 0]);
    assert_eq!(params_of(b"\x1b[m"), Vec::<i32>::new());
    assert_eq!(params_of(b"\x1b[;m"), vec![0, 0]);
    assert_eq!(params_of(b"\x1b[;7m"), vec![0, 7]);
}
