use terminal::input::{
    alt_char_bytes, build_key_seq, char_utf8, clamp_to_grid, decode_utf16_unit, key_down, motion_button, mouse_report,
    paste_bytes, vk_produces_char, wheel_button, wheel_lines, KeyOutcome,
};
use terminal::keys::{modifier_mask, Action, KeybindingEngine, MOD_CTRL, VK_F11, VK_F4, VK_LEFT, VK_RIGHT, VK_UP};
use terminal::render::{block_fill, box_dash_spec, box_edges, cell_style, is_box_glyph, BlockFill, LW};
use terminal::terminal::cell::{Cell, Color};
use terminal::terminal::{MouseEncoding, MouseMode};

#[test]
fn readme_shortcuts_are_bound() {
    let k = KeybindingEngine::new();
    let ctrl = modifier_mask(true, false, false);
    assert_eq!(ctrl, MOD_CTRL);
    assert_eq!(k.match_key(0x54, ctrl), Some(Action::NewTab));
    assert_eq!(k.match_key(0x57, ctrl), Some(Action::CloseTab));
    assert_eq!(k.match_key(VK_RIGHT, ctrl), Some(Action::NextTab));
    assert_eq!(k.match_key(VK_LEFT, ctrl), Some(Action::PrevTab));
    assert_eq!(k.match_key(0x31, ctrl), Some(Action::SelectTab(0)));
    assert_eq!(k.match_key(0x39, ctrl), Some(Action::SelectTab(8)));
    assert_eq!(k.match_key(0x43, ctrl), Some(Action::Copy));
    assert_eq!(k.match_key(0x56, ctrl), Some(Action::Paste));
    assert_eq!(k.match_key(VK_UP, ctrl), Some(Action::ScrollPageUp));
    assert_eq!(k.match_key(0x28, ctrl), Some(Action::ScrollPageDown));
    assert_eq!(k.match_key(0x24, ctrl), Some(Action::ScrollToTop));
    assert_eq!(k.match_key(0x23, ctrl), Some(Action::ScrollToBottom));
    assert_eq!(k.match_key(0xBC, ctrl), Some(Action::OpenConfig));
    assert_eq!(k.match_key(0x4C, ctrl), Some(Action::ToggleLog));
    assert_eq!(k.match_key(VK_F11, 0), Some(Action::ToggleDockHeight));
}

#[test]
fn bindings_need_exact_modifiers() {
    let k = KeybindingEngine::new();
    assert_eq!(k.match_key(0x54, 0), None);
    assert_eq!(k.match_key(0x54, modifier_mask(true, true, false)), None);
    assert_eq!(k.match_key(VK_F11, MOD_CTRL), None);
    assert_eq!(modifier_mask(true, true, true), 7);
    assert_eq!(modifier_mask(false, true, true), 6);
}

#[test]
fn key_sequences_unmodified() {
    assert_eq!(build_key_seq(VK_UP, false, false, false, false), Some(b"\x1b[A".to_vec()));
    assert_eq!(build_key_seq(VK_UP, false, false, false, true), Some(b"\x1bOA".to_vec()));
    assert_eq!(build_key_seq(0x24, false, false, false, false), Some(b"\x1b[H".to_vec()));
    assert_eq!(build_key_seq(0x2E, false, false, false, false), Some(b"\x1b[3~".to_vec()));
    assert_eq!(build_key_seq(0x70, false, false, false, false), Some(b"\x1bOP".to_vec()));
    assert_eq!(build_key_seq(0x74, false, false, false, false), Some(b"\x1b[15~".to_vec()));
    assert_eq!(build_key_seq(0x7B, false, false, false, false), Some(b"\x1b[24~".to_vec()));
    assert_eq!(build_key_seq(0x08, false, false, false, false), Some(b"\x7f".to_vec()));
    assert_eq!(build_key_seq(0x0D, false, false, false, false), Some(b"\r".to_vec()));
    assert_eq!(build_key_seq(0x09, false, false, false, false), Some(b"\t".to_vec()));
    assert_eq!(build_key_seq(0x1B, false, false, false, false), Some(b"\x1b".to_vec()));
    assert_eq!(build_key_seq(0x41, false, false, false, false), None);
}

#[test]
fn key_sequences_modified() {
    assert_eq!(build_key_seq(VK_UP, true, false, false, true), Some(b"\x1b[1;2A".to_vec()));
    assert_eq!(build_key_seq(VK_RIGHT, false, false, true, false), Some(b"\x1b[1;5C".to_vec()));
    assert_eq!(build_key_seq(0x2E, true, true, true, false), Some(b"\x1b[3;8~".to_vec()));
    assert_eq!(build_key_seq(0x70, false, true, false, false), Some(b"\x1b[1;3P".to_vec()));
    assert_eq!(build_key_seq(0x08, false, true, false, false), Some(b"\x1b\x7f".to_vec()));
    assert_eq!(build_key_seq(0x09, true, false, false, false), Some(b"\x1b[Z".to_vec()));
    assert_eq!(build_key_seq(0x09, false, true, false, false), Some(b"\x1b\t".to_vec()));
}

#[test]
fn which_keys_produce_characters() {
    assert!(!vk_produces_char(VK_UP));
    assert!(!vk_produces_char(0x87));
    assert!(!vk_produces_char(0x10));
    assert!(!vk_produces_char(0x14));
    assert!(vk_produces_char(0x41));
    assert!(vk_produces_char(0x0D));
    assert!(vk_produces_char(0x09));
}

#[test]
fn key_down_decisions() {
    let k = KeybindingEngine::new();
    match key_down(&k, 0x54, true, false, false, false, false) {
        (KeyOutcome::Bound(a), suppress) => {
            assert_eq!(a, Action::NewTab);
            assert!(suppress);
        }
        _ => panic!("expected a binding"),
    }
    match key_down(&k, VK_UP, false, false, false, false, false) {
        (KeyOutcome::Send(v), suppress) => {
            assert_eq!(v, b"\x1b[A".to_vec());
            assert!(!suppress);
        }
        _ => panic!("expected a sequence"),
    }
    match key_down(&k, VK_UP, false, false, true, true, false) {
        (KeyOutcome::Send(v), _) => assert_eq!(v, b"\x1b[1;3A".to_vec()),
        _ => panic!("expected a sequence"),
    }
    assert!(matches!(key_down(&k, VK_F4, false, false, true, true, false), (KeyOutcome::Unhandled, false)));
    assert!(matches!(key_down(&k, 0x41, false, false, false, false, false), (KeyOutcome::Unhandled, false)));
}

#[test]
fn mouse_reports() {
    assert_eq!(
        mouse_report(MouseMode::Press, MouseEncoding::Sgr, 0, 4, 9, true, false, false, false, false),
        Some(b"\x1b[<0;10;5M".to_vec())
    );
    assert_eq!(
        mouse_report(MouseMode::Press, MouseEncoding::Sgr, 0, 4, 9, false, false, false, false, true),
        Some(b"\x1b[<16;10;5m".to_vec())
    );
    assert_eq!(
        mouse_report(MouseMode::Press, MouseEncoding::Normal, 0, 0, 0, true, false, false, false, false),
        Some(vec![0x1b, b'[', b'M', 32, 33, 33])
    );
    assert_eq!(
        mouse_report(MouseMode::AnyMotion, MouseEncoding::Normal, 3, 1, 2, true, true, true, false, false),
        Some(vec![0x1b, b'[', b'M', 3 + 32 + 4 + 32, 3 + 32, 2 + 32])
    );
    assert_eq!(mouse_report(MouseMode::Press, MouseEncoding::Normal, 0, 0, 223, true, false, false, false, false), None);
    assert_eq!(mouse_report(MouseMode::Off, MouseEncoding::Sgr, 0, 0, 0, true, false, false, false, false), None);
}

#[test]
fn mouse_motion_and_wheel() {
    assert_eq!(motion_button(MouseMode::Off, true), None);
    assert_eq!(motion_button(MouseMode::Press, true), None);
    assert_eq!(motion_button(MouseMode::ButtonMotion, true), Some(0));
    assert_eq!(motion_button(MouseMode::ButtonMotion, false), None);
    assert_eq!(motion_button(MouseMode::AnyMotion, false), Some(3));
    assert_eq!(wheel_lines(120), 3);
    assert_eq!(wheel_lines(-240), 6);
    assert_eq!(wheel_lines(30), 3);
    assert_eq!(wheel_button(120), 64);
    assert_eq!(wheel_button(-120), 65);
}

#[test]
fn paste_framing() {
    assert_eq!(paste_bytes(true, b"hi"), b"\x1b[200~hi\x1b[201~".to_vec());
    assert_eq!(paste_bytes(false, b"hi"), b"hi".to_vec());
    assert_eq!(paste_bytes(true, b""), b"\x1b[200~\x1b[201~".to_vec());
}

#[test]
fn clamping_to_grid() {
    assert_eq!(clamp_to_grid(5, 5, 10, 10), (5, 5));
    assert_eq!(clamp_to_grid(50, 50, 10, 20), (9, 19));
    assert_eq!(clamp_to_grid(3, 3, 0, 0), (0, 0));
}

#[test]
fn utf16_surrogates() {
    let mut high = None;
    assert_eq!(decode_utf16_unit(&mut high, 0x41), Some('A'));
    assert_eq!(decode_utf16_unit(&mut high, 0xD83D), None);
    assert_eq!(high, Some(0xD83D));
    assert_eq!(decode_utf16_unit(&mut high, 0xDE00), Some('\u{1F600}'));
    assert_eq!(high, None);
    assert_eq!(decode_utf16_unit(&mut high, 0xDE00), None);
}

#[test]
fn character_bytes() {
    assert_eq!(char_utf8('a'), b"a".to_vec());
    assert_eq!(char_utf8('é'), "é".as_bytes().to_vec());
    assert_eq!(alt_char_bytes('x' as u32), Some(b"\x1bx".to_vec()));
    assert_eq!(alt_char_bytes('日' as u32), Some([&[0x1b][..], "日".as_bytes()].concat()));
    assert_eq!(alt_char_bytes(0x03), None);
    assert_eq!(alt_char_bytes(0x85), None);
    assert_eq!(alt_char_bytes(0xD800), None);
}

#[test]
fn box_glyph_tables() {
    assert!(is_box_glyph('\u{2500}'));
    assert!(is_box_glyph('\u{259F}'));
    assert!(!is_box_glyph('\u{25A0}'));
    let e = box_edges('\u{253C}').unwrap();
    assert_eq!((e.u, e.r, e.d, e.l), (LW::Light, LW::Light, LW::Light, LW::Light));
    let e = box_edges('\u{2554}').unwrap();
    assert_eq!((e.u, e.r, e.d, e.l), (LW::Empty, LW::Double, LW::Double, LW::Empty));
    assert!(box_edges('\u{2504}').is_none());
    assert!(box_edges('\u{256D}').is_none());
    assert_eq!(box_dash_spec('\u{2504}'), Some((3, false, false)));
    assert_eq!(box_dash_spec('\u{254F}'), Some((2, true, true)));
    assert_eq!(box_dash_spec('\u{2500}'), None);
}

#[test]
fn cell_style_colours() {
    let fg0 = (204, 204, 204);
    let bg0 = (12, 12, 12);
    let mut cell = Cell::default();
    cell.ch = 'a';
    let s = cell_style(&cell, false, fg0, bg0);
    assert_eq!((s.background, s.foreground, s.has_text), (None, fg0, true));
    let s = cell_style(&cell, true, fg0, bg0);
    assert_eq!((s.background, s.foreground), (Some(fg0), bg0));
    cell.fg = Color::Indexed(1);
    cell.bg = Color::Rgb(1, 2, 3);
    cell.attrs.inverse = true;
    cell.attrs.underline = true;
    cell.attrs.dim = true;
    let s = cell_style(&cell, false, fg0, bg0);
    assert_eq!(s.background, Some((205, 49, 49)));
    assert_eq!(s.foreground, (1, 2, 3));
    assert_eq!(s.underline, Some((1, 2, 3)));
    assert!(s.dim);
    let s = cell_style(&cell, true, fg0, bg0);
    assert_eq!((s.underline, s.dim), (None, false));
    cell.ch = ' ';
    assert!(!cell_style(&cell, false, fg0, bg0).has_text);
}

#[test]
fn block_elements_fill_in_eighths() {
    assert!(matches!(block_fill('\u{2592}'), BlockFill::Shade(2)));
    match block_fill('\u{2583}') {
        BlockFill::Rects(v) => assert_eq!(v, vec![(0, 5, 8, 8)]),
        other => panic!("unexpected {:?}", other),
    }
    match block_fill('\u{258E}') {
        BlockFill::Rects(v) => assert_eq!(v, vec![(0, 0, 2, 8)]),
        other => panic!("unexpected {:?}", other),
    }
    match block_fill('\u{259A}') {
        BlockFill::Rects(v) => assert_eq!(v, vec![(0, 0, 4, 4), (4, 4, 8, 8)]),
        other => panic!("unexpected {:?}", other),
    }
    match block_fill('x') {
        BlockFill::Rects(v) => assert!(v.is_empty()),
        other => panic!("unexpected {:?}", other),
    }
}
