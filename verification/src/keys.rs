//! Application key bindings: which key chord triggers which action.

use vstd::prelude::*;

verus! {

pub const VK_BACK: u16 = 0x08;
pub const VK_TAB: u16 = 0x09;
pub const VK_RETURN: u16 = 0x0D;
pub const VK_SHIFT: u16 = 0x10;
pub const VK_CONTROL: u16 = 0x11;
pub const VK_MENU: u16 = 0x12;
pub const VK_PAUSE: u16 = 0x13;
pub const VK_CAPITAL: u16 = 0x14;
pub const VK_ESCAPE: u16 = 0x1B;
pub const VK_PRIOR: u16 = 0x21;
pub const VK_NEXT: u16 = 0x22;
pub const VK_END: u16 = 0x23;
pub const VK_HOME: u16 = 0x24;
pub const VK_LEFT: u16 = 0x25;
pub const VK_UP: u16 = 0x26;
pub const VK_RIGHT: u16 = 0x27;
pub const VK_DOWN: u16 = 0x28;
pub const VK_SNAPSHOT: u16 = 0x2C;
pub const VK_INSERT: u16 = 0x2D;
pub const VK_DELETE: u16 = 0x2E;
pub const VK_1: u16 = 0x31;
pub const VK_9: u16 = 0x39;
pub const VK_C: u16 = 0x43;
pub const VK_L: u16 = 0x4C;
pub const VK_T: u16 = 0x54;
pub const VK_V: u16 = 0x56;
pub const VK_W: u16 = 0x57;
pub const VK_LWIN: u16 = 0x5B;
pub const VK_RWIN: u16 = 0x5C;
pub const VK_APPS: u16 = 0x5D;
pub const VK_F1: u16 = 0x70;
pub const VK_F2: u16 = 0x71;
pub const VK_F3: u16 = 0x72;
pub const VK_F4: u16 = 0x73;
pub const VK_F5: u16 = 0x74;
pub const VK_F6: u16 = 0x75;
pub const VK_F7: u16 = 0x76;
pub const VK_F8: u16 = 0x77;
pub const VK_F9: u16 = 0x78;
pub const VK_F10: u16 = 0x79;
pub const VK_F11: u16 = 0x7A;
pub const VK_F12: u16 = 0x7B;
pub const VK_F24: u16 = 0x87;
pub const VK_NUMLOCK: u16 = 0x90;
pub const VK_SCROLL: u16 = 0x91;
pub const VK_LSHIFT: u16 = 0xA0;
pub const VK_RMENU: u16 = 0xA5;
pub const VK_OEM_COMMA: u16 = 0xBC;

pub const MOD_CTRL: u8 = 1;
pub const MOD_SHIFT: u8 = 2;
pub const MOD_ALT: u8 = 4;

/// What a key chord asks the application to do.
#[derive(Clone, Copy, Debug, PartialEq, Eq, Structural)]
pub enum Action {
    NewTab,
    CloseTab,
    NextTab,
    PrevTab,
    SelectTab(usize),
    /// Ctrl+C: copy if there is a selection, else send ^C.
    Copy,
    Paste,
    ScrollPageUp,
    ScrollPageDown,
    ScrollToTop,
    ScrollToBottom,
    OpenConfig,
    ToggleDockHeight,
    ToggleLog,
}

/// One chord: the exact modifier mask, the virtual key, and its action.
#[derive(Clone, Copy, Debug, PartialEq, Eq, Structural)]
pub struct Binding {
    pub modifiers: u8,
    pub vk: u16,
    pub action: Action,
}

pub open spec fn bind(modifiers: u8, vk: u16, action: Action) -> Binding {
    Binding { modifiers, vk, action }
}

/// The built-in bindings, in lookup order.
pub open spec fn default_bindings() -> Seq<Binding> {
    seq![
        bind(MOD_CTRL, VK_T, Action::NewTab),
        bind(MOD_CTRL, VK_W, Action::CloseTab),
        bind(MOD_CTRL, VK_RIGHT, Action::NextTab),
        bind(MOD_CTRL, VK_LEFT, Action::PrevTab),
        bind(MOD_CTRL, 0x31, Action::SelectTab(0)),
        bind(MOD_CTRL, 0x32, Action::SelectTab(1)),
        bind(MOD_CTRL, 0x33, Action::SelectTab(2)),
        bind(MOD_CTRL, 0x34, Action::SelectTab(3)),
        bind(MOD_CTRL, 0x35, Action::SelectTab(4)),
        bind(MOD_CTRL, 0x36, Action::SelectTab(5)),
        bind(MOD_CTRL, 0x37, Action::SelectTab(6)),
        bind(MOD_CTRL, 0x38, Action::SelectTab(7)),
        bind(MOD_CTRL, 0x39, Action::SelectTab(8)),
        bind(MOD_CTRL, VK_C, Action::Copy),
        bind(MOD_CTRL, VK_V, Action::Paste),
        bind(MOD_CTRL, VK_UP, Action::ScrollPageUp),
        bind(MOD_CTRL, VK_DOWN, Action::ScrollPageDown),
        bind(MOD_CTRL, VK_HOME, Action::ScrollToTop),
        bind(MOD_CTRL, VK_END, Action::ScrollToBottom),
        bind(MOD_CTRL, VK_OEM_COMMA, Action::OpenConfig),
        bind(0, VK_F11, Action::ToggleDockHeight),
        bind(MOD_CTRL, VK_L, Action::ToggleLog),
    ]
}

/// The action of the first binding in `bs` whose key and modifier mask
/// both match exactly.
pub open spec fn first_match(bs: Seq<Binding>, vk: u16, mods: u8) -> Option<Action>
    decreases bs.len(),
{
    if bs.len() == 0 {
        None
    } else if bs[0].vk == vk && bs[0].modifiers == mods {
        Some(bs[0].action)
    } else {
        first_match(bs.drop_first(), vk, mods)
    }
}

/// The modifier mask of the keys held down.
pub open spec fn spec_modifier_mask(ctrl: bool, shift: bool, alt: bool) -> u8 {
    ((if ctrl { 1int } else { 0 }) + (if shift { 2int } else { 0 }) + (if alt { 4int } else { 0 })) as u8
}

/// The modifier mask for the given held keys (Ctrl = 1, Shift = 2, Alt = 4).
pub fn modifier_mask(ctrl: bool, shift: bool, alt: bool) -> (m: u8)
    ensures
        m == spec_modifier_mask(ctrl, shift, alt),
        m < 8,
{
    let mut m: u8 = 0;
    if ctrl {
        m = m + MOD_CTRL;
    }
    if shift {
        m = m + MOD_SHIFT;
    }
    if alt {
        m = m + MOD_ALT;
    }
    m
}

/// Maps key chords to application actions.
pub struct KeybindingEngine {
    bindings: Vec<Binding>,
}

impl View for KeybindingEngine {
    type V = Seq<Binding>;

    closed spec fn view(&self) -> Seq<Binding> {
        self.bindings@
    }
}

impl KeybindingEngine {
    /// The engine with the built-in bindings.
    pub fn new() -> (e: Self)
        ensures
            e@ == default_bindings(),
    {
        let mut b: Vec<Binding> = Vec::new();
        b.push(Binding { modifiers: MOD_CTRL, vk: VK_T, action: Action::NewTab });
        b.push(Binding { modifiers: MOD_CTRL, vk: VK_W, action: Action::CloseTab });
        b.push(Binding { modifiers: MOD_CTRL, vk: VK_RIGHT, action: Action::NextTab });
        b.push(Binding { modifiers: MOD_CTRL, vk: VK_LEFT, action: Action::PrevTab });
        let mut n: usize = 0;
        while n < 9
            invariant
                n <= 9,
                b@ == default_bindings().take(4 + n),
            decreases 9 - n,
        {
            b.push(Binding { modifiers: MOD_CTRL, vk: VK_1 + n as u16, action: Action::SelectTab(n) });
            n = n + 1;
            assert(b@ =~= default_bindings().take(4 + n));
        }
        b.push(Binding { modifiers: MOD_CTRL, vk: VK_C, action: Action::Copy });
        b.push(Binding { modifiers: MOD_CTRL, vk: VK_V, action: Action::Paste });
        b.push(Binding { modifiers: MOD_CTRL, vk: VK_UP, action: Action::ScrollPageUp });
        b.push(Binding { modifiers: MOD_CTRL, vk: VK_DOWN, action: Action::ScrollPageDown });
        b.push(Binding { modifiers: MOD_CTRL, vk: VK_HOME, action: Action::ScrollToTop });
        b.push(Binding { modifiers: MOD_CTRL, vk: VK_END, action: Action::ScrollToBottom });
        b.push(Binding { modifiers: MOD_CTRL, vk: VK_OEM_COMMA, action: Action::OpenConfig });
        b.push(Binding { modifiers: 0, vk: VK_F11, action: Action::ToggleDockHeight });
        b.push(Binding { modifiers: MOD_CTRL, vk: VK_L, action: Action::ToggleLog });
        assert(b@ =~= default_bindings());
        KeybindingEngine { bindings: b }
    }

    /// The action bound to key `vk` pressed with exactly the modifiers in
    /// `mods`; the first matching binding wins.
    pub fn match_key(&self, vk: u16, mods: u8) -> (r: Option<Action>)
        ensures
            r == first_match(self@, vk, mods),
    {
        let mut i: usize = 0;
        assert(self.bindings@.skip(0) =~= self.bindings@);
        while i < self.bindings.len()
            invariant
                i <= self.bindings@.len(),
                first_match(self.bindings@, vk, mods) == first_match(self.bindings@.skip(i as int), vk, mods),
            decreases self.bindings@.len() - i,
        {
            let b = self.bindings[i];
            assert(self.bindings@.skip(i as int).drop_first() =~= self.bindings@.skip(i + 1));
            if b.vk == vk && b.modifiers == mods {
                return Some(b.action);
            }
            i = i + 1;
        }
        None
    }
}

/// No two built-in bindings share a chord, so the lookup order never hides
/// a binding.
pub proof fn lemma_default_bindings_distinct(i: int, j: int)
    requires
        0 <= i < j < default_bindings().len(),
    ensures
        default_bindings()[i].vk != default_bindings()[j].vk
            || default_bindings()[i].modifiers != default_bindings()[j].modifiers,
{
}

/// Every built-in binding is found by its own chord.
pub proof fn lemma_default_binding_found(i: int)
    requires
        0 <= i < default_bindings().len(),
    ensures
        first_match(default_bindings(), default_bindings()[i].vk, default_bindings()[i].modifiers)
            == Some(default_bindings()[i].action),
{
    lemma_first_match_unique(default_bindings(), i);
}

proof fn lemma_first_match_unique(bs: Seq<Binding>, i: int)
    requires
        0 <= i < bs.len(),
        forall|a: int, b: int| 0 <= a < b < bs.len() ==> #[trigger] bs[a].vk != #[trigger] bs[b].vk
            || bs[a].modifiers != bs[b].modifiers,
    ensures
        first_match(bs, bs[i].vk, bs[i].modifiers) == Some(bs[i].action),
    decreases i,
{
    if i > 0 {
        let t = bs.drop_first();
        assert forall|a: int, b: int| 0 <= a < b < t.len() implies #[trigger] t[a].vk != #[trigger] t[b].vk
            || t[a].modifiers != t[b].modifiers by {
            assert(t[a] == bs[a + 1] && t[b] == bs[b + 1]);
        }
        lemma_first_match_unique(t, i - 1);
        assert(t[i - 1] == bs[i]);
        assert(bs[0].vk != bs[i].vk || bs[0].modifiers != bs[i].modifiers);
    }
}

/// Ctrl with digit `n` (1..=9) selects tab `n - 1`.
pub proof fn lemma_ctrl_digit_selects_tab(n: u16)
    requires
        1 <= n <= 9,
    ensures
        first_match(default_bindings(), (0x30 + n) as u16, MOD_CTRL) == Some(Action::SelectTab((n - 1) as usize)),
{
    let i = 3 + n as int;
    lemma_default_binding_found(i);
}

} // verus!
