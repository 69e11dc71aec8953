use terminal::actions::{tab_action, view_action, ActionEffect};
use terminal::keys::Action;
use terminal::tabs::Tabs;
use terminal::terminal::selection::Selection;
use terminal::terminal::Terminal;

fn three_tabs() -> Tabs<u32> {
    let mut t = Tabs::new();
    t.push(10);
    t.push(20);
    t.push(30);
    t
}

#[test]
fn tab_actions_move_between_tabs() {
    let mut t = three_tabs();
    assert_eq!(t.active(), 2);
    assert!(matches!(tab_action(&mut t, Action::NextTab), ActionEffect::Done));
    assert_eq!(t.active(), 0);
    assert!(matches!(tab_action(&mut t, Action::PrevTab), ActionEffect::Done));
    assert_eq!(t.active(), 2);
    assert!(matches!(tab_action(&mut t, Action::SelectTab(1)), ActionEffect::Done));
    assert_eq!(t.active(), 1);
    assert!(matches!(tab_action(&mut t, Action::SelectTab(7)), ActionEffect::Done));
    assert_eq!(t.active(), 1);
    assert!(matches!(tab_action(&mut t, Action::NewTab), ActionEffect::SpawnTab));
    assert_eq!(t.len(), 3);
    assert!(matches!(tab_action(&mut t, Action::Copy), ActionEffect::Unhandled));
}

#[test]
fn closing_the_last_tab_quits() {
    let mut t = three_tabs();
    assert!(matches!(tab_action(&mut t, Action::CloseTab), ActionEffect::Done));
    assert_eq!((t.len(), t.active(), *t.get(1)), (2, 1, 20));
    t.switch(0);
    assert!(matches!(tab_action(&mut t, Action::CloseTab), ActionEffect::Done));
    assert_eq!((t.len(), t.active(), *t.get(0)), (1, 0, 20));
    assert!(matches!(tab_action(&mut t, Action::CloseTab), ActionEffect::Quit));
    assert_eq!(t.len(), 0);
}

#[test]
fn copy_with_selection_copies_and_clears() {
    let mut term = Terminal::new(10, 3);
    term.process(b"hello\r\nworld");
    let mut sel = Selection { anchor: Some((0, 1)), end: Some((0, 3)) };
    match view_action(&mut term, &mut sel, Action::Copy) {
        ActionEffect::CopyText(t) => assert_eq!(t, "ell"),
        other => panic!("unexpected {:?}", other),
    }
    assert!(!sel.is_active());
}

#[test]
fn copy_without_selection_sends_interrupt() {
    let mut term = Terminal::new(10, 3);
    let mut sel = Selection::default();
    match view_action(&mut term, &mut sel, Action::Copy) {
        ActionEffect::SendBytes(b) => assert_eq!(b, vec![3]),
        other => panic!("unexpected {:?}", other),
    }
}

#[test]
fn scroll_actions_move_the_view() {
    let mut term = Terminal::new(10, 4);
    for _ in 0..20 {
        term.process(b"line\r\n");
    }
    let mut sel = Selection::default();
    let back = term.grid.scrollback_len();
    assert_eq!(back, 17);
    assert!(matches!(view_action(&mut term, &mut sel, Action::ScrollPageUp), ActionEffect::Done));
    assert_eq!(term.grid.scroll_offset, 4);
    view_action(&mut term, &mut sel, Action::ScrollPageUp);
    assert_eq!(term.grid.scroll_offset, 8);
    assert!(matches!(view_action(&mut term, &mut sel, Action::ScrollPageDown), ActionEffect::Done));
    assert_eq!(term.grid.scroll_offset, 4);
    view_action(&mut term, &mut sel, Action::ScrollPageDown);
    view_action(&mut term, &mut sel, Action::ScrollPageDown);
    assert_eq!(term.grid.scroll_offset, 0);
    view_action(&mut term, &mut sel, Action::ScrollToTop);
    assert_eq!(term.grid.scroll_offset, 17);
    view_action(&mut term, &mut sel, Action::ScrollPageUp);
    assert_eq!(term.grid.scroll_offset, 17);
    view_action(&mut term, &mut sel, Action::ScrollToBottom);
    assert_eq!(term.grid.scroll_offset, 0);
    assert!(matches!(view_action(&mut term, &mut sel, Action::Paste), ActionEffect::PasteClipboard));
    assert!(matches!(view_action(&mut term, &mut sel, Action::ToggleLog), ActionEffect::ToggleLog));
    assert!(matches!(view_action(&mut term, &mut sel, Action::NextTab), ActionEffect::Unhandled));
}
