//! What a keybinding action does: the decisions on the tabs and on the
//! active tab's terminal and selection, and what is left for the window
//! to do (open a shell, talk to the clipboard, show dialogs).

use vstd::prelude::*;
use crate::keys::Action;
use crate::tabs::Tabs;
use crate::terminal::{Terminal, TermModel, term_wf};
use crate::terminal::grid::{spec_scroll_viewport_up, spec_scroll_viewport_down, spec_scroll_viewport_to_bottom};
use crate::terminal::selection::{Selection, spec_extract_text};

verus! {

/// What remains to be done after an action was applied.
#[derive(Debug)]
pub enum ActionEffect {
    /// Nothing more: the action was carried out.
    Done,
    /// The action is not one this function handles.
    Unhandled,
    /// Open a new shell tab.
    SpawnTab,
    /// The last tab was closed: quit.
    Quit,
    /// Put this text on the clipboard.
    CopyText(String),
    /// Send these bytes to the program in the active tab.
    SendBytes(Vec<u8>),
    /// Paste the clipboard into the active tab.
    PasteClipboard,
    /// Show the settings dialog.
    OpenConfig,
    /// Toggle docking the window to the full work-area height.
    ToggleDockHeight,
    /// Start or stop logging the active tab's session.
    ToggleLog,
}

/// Whether an action concerns the set of tabs rather than the active one.
pub open spec fn is_tab_action(a: Action) -> bool {
    a is NewTab || a is CloseTab || a is NextTab || a is PrevTab || a is SelectTab
}

/// Applies a tab action: new tab (left to the window), close the active
/// tab (quit when it was the last), next / previous tab (wrapping), or
/// select tab `i` (ignored when out of range). Other actions leave the
/// tabs as they are and come back `Unhandled`.
pub fn tab_action<T>(tabs: &mut Tabs<T>, action: Action) -> (e: ActionEffect)
    requires
        old(tabs).wf(),
        old(tabs).items().len() > 0,
    ensures
        final(tabs).wf(),
        match action {
            Action::NewTab => e is SpawnTab && final(tabs).items() == old(tabs).items()
                && final(tabs).active_index() == old(tabs).active_index(),
            Action::CloseTab => {
                let a = old(tabs).active_index();
                let n = final(tabs).items().len();
                &&& final(tabs).items() == old(tabs).items().remove(a as int)
                &&& final(tabs).active_index() == if n == 0 {
                    0
                } else if a >= n {
                    (n - 1) as nat
                } else {
                    a
                }
                &&& (if n == 0 { e is Quit } else { e is Done })
            },
            Action::NextTab => e is Done && final(tabs).items() == old(tabs).items()
                && final(tabs).active_index() == (old(tabs).active_index() + 1) % old(tabs).items().len(),
            Action::PrevTab => e is Done && final(tabs).items() == old(tabs).items()
                && final(tabs).active_index() == if old(tabs).active_index() == 0 {
                    (old(tabs).items().len() - 1) as nat
                } else {
                    (old(tabs).active_index() - 1) as nat
                },
            Action::SelectTab(i) => e is Done && final(tabs).items() == old(tabs).items()
                && final(tabs).active_index() == if i < old(tabs).items().len() {
                    i as nat
                } else {
                    old(tabs).active_index()
                },
            _ => e is Unhandled && final(tabs).items() == old(tabs).items()
                && final(tabs).active_index() == old(tabs).active_index(),
        },
{
    match action {
        Action::NewTab => ActionEffect::SpawnTab,
        Action::CloseTab => {
            let a = tabs.active();
            if tabs.close(a) {
                ActionEffect::Quit
            } else {
                ActionEffect::Done
            }
        },
        Action::NextTab => {
            tabs.next();
            ActionEffect::Done
        },
        Action::PrevTab => {
            tabs.prev();
            ActionEffect::Done
        },
        Action::SelectTab(i) => {
            tabs.switch(i);
            ActionEffect::Done
        },
        _ => ActionEffect::Unhandled,
    }
}

/// Applies an action to the active tab's terminal and selection.
/// Copy puts the selected text on the clipboard and clears the selection,
/// or, with nothing selected, sends ^C (0x03) to the program. Page up /
/// down scroll the view by a page (the screen's rows); to top / bottom
/// scroll to the oldest scrollback line / the live screen. Paste and the window actions
/// are left to the window; tab actions come back `Unhandled`.
pub fn view_action(term: &mut Terminal, sel: &mut Selection, action: Action) -> (e: ActionEffect)
    requires
        term_wf(old(term)@),
        action is ScrollPageUp ==> old(term)@.grid.scroll_offset + old(term)@.grid.rows <= usize::MAX,
        action is ScrollToTop ==> old(term)@.grid.scroll_offset + old(term)@.grid.history.len() <= usize::MAX,
    ensures
        match action {
            Action::Copy => {
                &&& final(term)@ == old(term)@
                &&& if old(sel).anchor is Some && old(sel).end is Some {
                    &&& e matches ActionEffect::CopyText(t) && t@ == spec_extract_text(*old(sel), old(term)@.grid)
                    &&& final(sel).anchor is None && final(sel).end is None
                } else {
                    &&& e matches ActionEffect::SendBytes(b) && b@ == seq![0x03u8]
                    &&& *final(sel) == *old(sel)
                }
            },
            Action::ScrollPageUp => e is Done && *final(sel) == *old(sel) && final(term)@ == (TermModel {
                grid: spec_scroll_viewport_up(old(term)@.grid, old(term)@.grid.rows as int),
                ..old(term)@
            }),
            Action::ScrollPageDown => e is Done && *final(sel) == *old(sel) && final(term)@ == (TermModel {
                grid: spec_scroll_viewport_down(old(term)@.grid, old(term)@.grid.rows as int),
                ..old(term)@
            }),
            Action::ScrollToTop => e is Done && *final(sel) == *old(sel) && final(term)@ == (TermModel {
                grid: spec_scroll_viewport_up(old(term)@.grid, old(term)@.grid.history.len() as int),
                ..old(term)@
            }),
            Action::ScrollToBottom => e is Done && *final(sel) == *old(sel) && final(term)@ == (TermModel {
                grid: spec_scroll_viewport_to_bottom(old(term)@.grid),
                ..old(term)@
            }),
            _ => {
                &&& final(term)@ == old(term)@
                &&& *final(sel) == *old(sel)
                &&& match action {
                    Action::Paste => e is PasteClipboard,
                    Action::OpenConfig => e is OpenConfig,
                    Action::ToggleDockHeight => e is ToggleDockHeight,
                    Action::ToggleLog => e is ToggleLog,
                    _ => e is Unhandled,
                }
            },
        },
{
    match action {
        Action::Copy => {
            if sel.is_active() {
                let text = sel.extract_text(&term.grid);
                sel.clear();
                ActionEffect::CopyText(text)
            } else {
                let b: Vec<u8> = vec![0x03];
                assert(b@ =~= seq![0x03u8]);
                ActionEffect::SendBytes(b)
            }
        },
        Action::ScrollPageUp => {
            let page = term.grid.rows;
            term.grid.scroll_viewport_up(page);
            ActionEffect::Done
        },
        Action::ScrollPageDown => {
            let page = term.grid.rows;
            term.grid.scroll_viewport_down(page);
            ActionEffect::Done
        },
        Action::ScrollToTop => {
            let max = term.grid.scrollback_len();
            term.grid.scroll_viewport_up(max);
            ActionEffect::Done
        },
        Action::ScrollToBottom => {
            term.grid.scroll_viewport_to_bottom();
            ActionEffect::Done
        },
        Action::Paste => ActionEffect::PasteClipboard,
        Action::OpenConfig => ActionEffect::OpenConfig,
        Action::ToggleDockHeight => ActionEffect::ToggleDockHeight,
        Action::ToggleLog => ActionEffect::ToggleLog,
        _ => ActionEffect::Unhandled,
    }
}

} // verus!
