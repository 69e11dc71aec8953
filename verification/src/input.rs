//! What the terminal sends to the program for keys, mouse events and
//! pastes.

use vstd::prelude::*;
use crate::keys::{
    VK_BACK, VK_TAB, VK_RETURN, VK_SHIFT, VK_CONTROL, VK_MENU, VK_PAUSE, VK_CAPITAL, VK_ESCAPE,
    VK_PRIOR, VK_NEXT, VK_END, VK_HOME, VK_LEFT, VK_UP, VK_RIGHT, VK_DOWN, VK_SNAPSHOT, VK_INSERT,
    VK_DELETE, VK_LWIN, VK_RWIN, VK_APPS, VK_F1, VK_F2, VK_F3, VK_F4, VK_F5, VK_F6, VK_F7, VK_F8,
    VK_F9, VK_F10, VK_F11, VK_F12, VK_F24, VK_NUMLOCK, VK_SCROLL, VK_LSHIFT, VK_RMENU,
};
use crate::terminal::{MouseMode, MouseEncoding};
use crate::terminal::handler::{decimal, push_decimal};
use crate::terminal::parser::{char_from_u32, is_scalar_value};
use crate::keys::{KeybindingEngine, Action, first_match, spec_modifier_mask, modifier_mask};
use crate::text::string_from_chars;
use vstd::utf8::encode_utf8;

verus! {

/// The xterm modifier code: 1 + Shift + 2 * Alt + 4 * Ctrl.
pub open spec fn mod_code(shift: bool, alt: bool, ctrl: bool) -> nat {
    (1 + (if shift { 1int } else { 0 }) + (if alt { 2int } else { 0 }) + (if ctrl { 4int } else { 0 })) as nat
}

/// `ESC [ 1 ; m <final>`.
pub open spec fn csi_modified(m: nat, fin: u8) -> Seq<u8> {
    seq![0x1Bu8, 0x5Bu8, 0x31u8, 0x3Bu8] + decimal(m) + seq![fin]
}

/// A cursor key: modified form, or SS3 in application cursor mode, or CSI.
pub open spec fn cursor_seq(m: nat, app_mode: bool, fin: u8) -> Seq<u8> {
    if m > 1 {
        csi_modified(m, fin)
    } else if app_mode {
        seq![0x1Bu8, 0x4Fu8, fin]
    } else {
        seq![0x1Bu8, 0x5Bu8, fin]
    }
}

/// `ESC [ n ~`, or `ESC [ n ; m ~` with modifiers.
pub open spec fn tilde_seq(m: nat, n: nat) -> Seq<u8> {
    if m > 1 {
        seq![0x1Bu8, 0x5Bu8] + decimal(n) + seq![0x3Bu8] + decimal(m) + seq![0x7Eu8]
    } else {
        seq![0x1Bu8, 0x5Bu8] + decimal(n) + seq![0x7Eu8]
    }
}

/// F1..F4: `ESC O <final>`, or the modified CSI form.
pub open spec fn pf_seq(m: nat, fin: u8) -> Seq<u8> {
    if m > 1 { csi_modified(m, fin) } else { seq![0x1Bu8, 0x4Fu8, fin] }
}

/// `prefix` preceded by ESC when Alt is held.
pub open spec fn alt_prefixed(alt: bool, s: Seq<u8>) -> Seq<u8> {
    if alt { seq![0x1Bu8] + s } else { s }
}

/// The bytes sent for a navigation, function or special key; `None` for
/// keys that are sent as characters.
pub open spec fn key_seq(vk: u16, shift: bool, alt: bool, ctrl: bool, app_mode: bool) -> Option<Seq<u8>> {
    let m = mod_code(shift, alt, ctrl);
    if vk == VK_UP { Some(cursor_seq(m, app_mode, 0x41)) }
    else if vk == VK_DOWN { Some(cursor_seq(m, app_mode, 0x42)) }
    else if vk == VK_RIGHT { Some(cursor_seq(m, app_mode, 0x43)) }
    else if vk == VK_LEFT { Some(cursor_seq(m, app_mode, 0x44)) }
    else if vk == VK_HOME { Some(cursor_seq(m, app_mode, 0x48)) }
    else if vk == VK_END { Some(cursor_seq(m, app_mode, 0x46)) }
    else if vk == VK_INSERT { Some(tilde_seq(m, 2)) }
    else if vk == VK_DELETE { Some(tilde_seq(m, 3)) }
    else if vk == VK_PRIOR { Some(tilde_seq(m, 5)) }
    else if vk == VK_NEXT { Some(tilde_seq(m, 6)) }
    else if vk == VK_F1 { Some(pf_seq(m, 0x50)) }
    else if vk == VK_F2 { Some(pf_seq(m, 0x51)) }
    else if vk == VK_F3 { Some(pf_seq(m, 0x52)) }
    else if vk == VK_F4 { Some(pf_seq(m, 0x53)) }
    else if vk == VK_F5 { Some(tilde_seq(m, 15)) }
    else if vk == VK_F6 { Some(tilde_seq(m, 17)) }
    else if vk == VK_F7 { Some(tilde_seq(m, 18)) }
    else if vk == VK_F8 { Some(tilde_seq(m, 19)) }
    else if vk == VK_F9 { Some(tilde_seq(m, 20)) }
    else if vk == VK_F10 { Some(tilde_seq(m, 21)) }
    else if vk == VK_F11 { Some(tilde_seq(m, 23)) }
    else if vk == VK_F12 { Some(tilde_seq(m, 24)) }
    else if vk == VK_BACK { Some(alt_prefixed(alt, seq![0x7Fu8])) }
    else if vk == VK_RETURN { Some(alt_prefixed(alt, seq![0x0Du8])) }
    else if vk == VK_TAB {
        Some(if shift { seq![0x1Bu8, 0x5Bu8, 0x5Au8] } else { alt_prefixed(alt, seq![0x09u8]) })
    }
    else if vk == VK_ESCAPE { Some(alt_prefixed(alt, seq![0x1Bu8])) }
    else { None }
}

/// The xterm sequence of a key whose unmodified form is `ESC [ <digits> ~`:
/// with modifiers, `ESC [ <digits> ; <code> ~`, the code being
/// 1 + Shift + 2 * Alt + 4 * Ctrl.
pub open spec fn xterm_tilde(digits: Seq<u8>, shift: bool, alt: bool, ctrl: bool) -> Seq<u8> {
    let code: int = 1 + (if shift { 1int } else { 0 }) + (if alt { 2int } else { 0 }) + (if ctrl { 4int } else { 0 });
    if code == 1 {
        seq![0x1Bu8, 0x5Bu8] + digits + seq![0x7Eu8]
    } else {
        seq![0x1Bu8, 0x5Bu8] + digits + seq![0x3Bu8, (0x30 + code) as u8, 0x7Eu8]
    }
}

/// The xterm sequence of a key with a letter final: `ESC [ 1 ; <code>
/// <final>` with modifiers; without, `ESC O <final>` where `ss3` (the
/// function keys F1-F4, or the cursor keys in application mode) and
/// `ESC [ <final>` otherwise.
pub open spec fn xterm_letter(fin: u8, ss3: bool, shift: bool, alt: bool, ctrl: bool) -> Seq<u8> {
    let code: int = 1 + (if shift { 1int } else { 0 }) + (if alt { 2int } else { 0 }) + (if ctrl { 4int } else { 0 });
    if code > 1 {
        seq![0x1Bu8, 0x5Bu8, 0x31u8, 0x3Bu8, (0x30 + code) as u8, fin]
    } else if ss3 {
        seq![0x1Bu8, 0x4Fu8, fin]
    } else {
        seq![0x1Bu8, 0x5Bu8, fin]
    }
}

/// The navigation and function keys send the xterm sequences, for every
/// state of the modifier keys and of application cursor mode: Insert
/// `ESC [ 2 ~`, Delete `3`, Page Up `5`, Page Down `6`, F5 `15`, F6 `17`,
/// F7 `18`, F8 `19`, F9 `20`, F10 `21`, F11 `23`, F12 `24`; Up `A`, Down
/// `B`, Right `C`, Left `D`, Home `H`, End `F` (SS3 in application mode);
/// F1-F4 `ESC O P`..`S`. Backspace sends DEL, Enter CR, Tab HT (Shift+Tab
/// `ESC [ Z`), Escape ESC, each preceded by ESC when Alt is held.
pub proof fn lemma_key_sequences(shift: bool, alt: bool, ctrl: bool, app: bool)
    ensures
        key_seq(VK_INSERT, shift, alt, ctrl, app) == Some(xterm_tilde(seq![0x32u8], shift, alt, ctrl)),
        key_seq(VK_DELETE, shift, alt, ctrl, app) == Some(xterm_tilde(seq![0x33u8], shift, alt, ctrl)),
        key_seq(VK_PRIOR, shift, alt, ctrl, app) == Some(xterm_tilde(seq![0x35u8], shift, alt, ctrl)),
        key_seq(VK_NEXT, shift, alt, ctrl, app) == Some(xterm_tilde(seq![0x36u8], shift, alt, ctrl)),
        key_seq(VK_F5, shift, alt, ctrl, app) == Some(xterm_tilde(seq![0x31u8, 0x35u8], shift, alt, ctrl)),
        key_seq(VK_F6, shift, alt, ctrl, app) == Some(xterm_tilde(seq![0x31u8, 0x37u8], shift, alt, ctrl)),
        key_seq(VK_F7, shift, alt, ctrl, app) == Some(xterm_tilde(seq![0x31u8, 0x38u8], shift, alt, ctrl)),
        key_seq(VK_F8, shift, alt, ctrl, app) == Some(xterm_tilde(seq![0x31u8, 0x39u8], shift, alt, ctrl)),
        key_seq(VK_F9, shift, alt, ctrl, app) == Some(xterm_tilde(seq![0x32u8, 0x30u8], shift, alt, ctrl)),
        key_seq(VK_F10, shift, alt, ctrl, app) == Some(xterm_tilde(seq![0x32u8, 0x31u8], shift, alt, ctrl)),
        key_seq(VK_F11, shift, alt, ctrl, app) == Some(xterm_tilde(seq![0x32u8, 0x33u8], shift, alt, ctrl)),
        key_seq(VK_F12, shift, alt, ctrl, app) == Some(xterm_tilde(seq![0x32u8, 0x34u8], shift, alt, ctrl)),
        key_seq(VK_UP, shift, alt, ctrl, app) == Some(xterm_letter(0x41, app, shift, alt, ctrl)),
        key_seq(VK_DOWN, shift, alt, ctrl, app) == Some(xterm_letter(0x42, app, shift, alt, ctrl)),
        key_seq(VK_RIGHT, shift, alt, ctrl, app) == Some(xterm_letter(0x43, app, shift, alt, ctrl)),
        key_seq(VK_LEFT, shift, alt, ctrl, app) == Some(xterm_letter(0x44, app, shift, alt, ctrl)),
        key_seq(VK_HOME, shift, alt, ctrl, app) == Some(xterm_letter(0x48, app, shift, alt, ctrl)),
        key_seq(VK_END, shift, alt, ctrl, app) == Some(xterm_letter(0x46, app, shift, alt, ctrl)),
        key_seq(VK_F1, shift, alt, ctrl, app) == Some(xterm_letter(0x50, true, shift, alt, ctrl)),
        key_seq(VK_F2, shift, alt, ctrl, app) == Some(xterm_letter(0x51, true, shift, alt, ctrl)),
        key_seq(VK_F3, shift, alt, ctrl, app) == Some(xterm_letter(0x52, true, shift, alt, ctrl)),
        key_seq(VK_F4, shift, alt, ctrl, app) == Some(xterm_letter(0x53, true, shift, alt, ctrl)),
        key_seq(VK_BACK, shift, alt, ctrl, app) == Some(if alt { seq![0x1Bu8, 0x7Fu8] } else { seq![0x7Fu8] }),
        key_seq(VK_RETURN, shift, alt, ctrl, app) == Some(if alt { seq![0x1Bu8, 0x0Du8] } else { seq![0x0Du8] }),
        key_seq(VK_TAB, shift, alt, ctrl, app) == Some(if shift {
            seq![0x1Bu8, 0x5Bu8, 0x5Au8]
        } else if alt {
            seq![0x1Bu8, 0x09u8]
        } else {
            seq![0x09u8]
        }),
        key_seq(VK_ESCAPE, shift, alt, ctrl, app) == Some(if alt { seq![0x1Bu8, 0x1Bu8] } else { seq![0x1Bu8] }),
{
    assert(seq![0x1Bu8] + seq![0x7Fu8] =~= seq![0x1Bu8, 0x7Fu8]);
    assert(seq![0x1Bu8] + seq![0x0Du8] =~= seq![0x1Bu8, 0x0Du8]);
    assert(seq![0x1Bu8] + seq![0x09u8] =~= seq![0x1Bu8, 0x09u8]);
    assert(seq![0x1Bu8] + seq![0x1Bu8] =~= seq![0x1Bu8, 0x1Bu8]);
    let m = mod_code(shift, alt, ctrl);
    reveal_with_fuel(decimal, 3);
    assert(decimal(m) == seq![(48 + m) as u8]);
    assert(decimal(2) == seq![0x32u8]);
    assert(decimal(3) == seq![0x33u8]);
    assert(decimal(5) == seq![0x35u8]);
    assert(decimal(6) == seq![0x36u8]);
    assert(decimal(15) =~= seq![0x31u8, 0x35u8]);
    assert(decimal(17) =~= seq![0x31u8, 0x37u8]);
    assert(decimal(18) =~= seq![0x31u8, 0x38u8]);
    assert(decimal(19) =~= seq![0x31u8, 0x39u8]);
    assert(decimal(20) =~= seq![0x32u8, 0x30u8]);
    assert(decimal(21) =~= seq![0x32u8, 0x31u8]);
    assert(decimal(23) =~= seq![0x32u8, 0x33u8]);
    assert(decimal(24) =~= seq![0x32u8, 0x34u8]);
    let tail = seq![0x3Bu8] + decimal(m) + seq![0x7Eu8];
    assert(tail =~= seq![0x3Bu8, (48 + m) as u8, 0x7Eu8]);
    assert forall|d: Seq<u8>| #![trigger xterm_tilde(d, shift, alt, ctrl)]
        (m > 1 ==> seq![0x1Bu8, 0x5Bu8] + d + seq![0x3Bu8] + decimal(m) + seq![0x7Eu8] == xterm_tilde(d, shift, alt, ctrl))
        && (m <= 1 ==> seq![0x1Bu8, 0x5Bu8] + d + seq![0x7Eu8] == xterm_tilde(d, shift, alt, ctrl)) by {
        assert(seq![0x1Bu8, 0x5Bu8] + d + seq![0x3Bu8] + decimal(m) + seq![0x7Eu8]
            =~= seq![0x1Bu8, 0x5Bu8] + d + seq![0x3Bu8, (48 + m) as u8, 0x7Eu8]);
    }
    assert(seq![0x1Bu8, 0x5Bu8, 0x31u8, 0x3Bu8] + decimal(m) + seq![0x41u8] =~= seq![0x1Bu8, 0x5Bu8, 0x31u8, 0x3Bu8, (48 + m) as u8, 0x41u8]);
    assert forall|fin: u8| #![trigger csi_modified(m, fin)]
        csi_modified(m, fin) =~= seq![0x1Bu8, 0x5Bu8, 0x31u8, 0x3Bu8, (48 + m) as u8, fin] by {}
    assert(csi_modified(m, 0x41) == seq![0x1Bu8, 0x5Bu8, 0x31u8, 0x3Bu8, (48 + m) as u8, 0x41u8]);
    assert(csi_modified(m, 0x42) == seq![0x1Bu8, 0x5Bu8, 0x31u8, 0x3Bu8, (48 + m) as u8, 0x42u8]);
    assert(csi_modified(m, 0x43) == seq![0x1Bu8, 0x5Bu8, 0x31u8, 0x3Bu8, (48 + m) as u8, 0x43u8]);
    assert(csi_modified(m, 0x44) == seq![0x1Bu8, 0x5Bu8, 0x31u8, 0x3Bu8, (48 + m) as u8, 0x44u8]);
    assert(csi_modified(m, 0x46) == seq![0x1Bu8, 0x5Bu8, 0x31u8, 0x3Bu8, (48 + m) as u8, 0x46u8]);
    assert(csi_modified(m, 0x48) == seq![0x1Bu8, 0x5Bu8, 0x31u8, 0x3Bu8, (48 + m) as u8, 0x48u8]);
    assert(csi_modified(m, 0x50) == seq![0x1Bu8, 0x5Bu8, 0x31u8, 0x3Bu8, (48 + m) as u8, 0x50u8]);
    assert(csi_modified(m, 0x51) == seq![0x1Bu8, 0x5Bu8, 0x31u8, 0x3Bu8, (48 + m) as u8, 0x51u8]);
    assert(csi_modified(m, 0x52) == seq![0x1Bu8, 0x5Bu8, 0x31u8, 0x3Bu8, (48 + m) as u8, 0x52u8]);
    assert(csi_modified(m, 0x53) == seq![0x1Bu8, 0x5Bu8, 0x31u8, 0x3Bu8, (48 + m) as u8, 0x53u8]);
    assert(xterm_tilde(seq![0x32u8], shift, alt, ctrl) == tilde_seq(m, 2));
    assert(xterm_tilde(seq![0x33u8], shift, alt, ctrl) == tilde_seq(m, 3));
    assert(xterm_tilde(seq![0x35u8], shift, alt, ctrl) == tilde_seq(m, 5));
    assert(xterm_tilde(seq![0x36u8], shift, alt, ctrl) == tilde_seq(m, 6));
    assert(xterm_tilde(seq![0x31u8, 0x35u8], shift, alt, ctrl) == tilde_seq(m, 15));
    assert(xterm_tilde(seq![0x31u8, 0x37u8], shift, alt, ctrl) == tilde_seq(m, 17));
    assert(xterm_tilde(seq![0x31u8, 0x38u8], shift, alt, ctrl) == tilde_seq(m, 18));
    assert(xterm_tilde(seq![0x31u8, 0x39u8], shift, alt, ctrl) == tilde_seq(m, 19));
    assert(xterm_tilde(seq![0x32u8, 0x30u8], shift, alt, ctrl) == tilde_seq(m, 20));
    assert(xterm_tilde(seq![0x32u8, 0x31u8], shift, alt, ctrl) == tilde_seq(m, 21));
    assert(xterm_tilde(seq![0x32u8, 0x33u8], shift, alt, ctrl) == tilde_seq(m, 23));
    assert(xterm_tilde(seq![0x32u8, 0x34u8], shift, alt, ctrl) == tilde_seq(m, 24));
}

fn csi_modified_exec(m: u8, fin: u8) -> (v: Vec<u8>)
    requires
        2 <= m <= 8,
    ensures
        v@ == csi_modified(m as nat, fin),
{
    let mut v: Vec<u8> = Vec::new();
    v.push(0x1B);
    v.push(0x5B);
    v.push(0x31);
    v.push(0x3B);
    push_decimal(&mut v, m as usize);
    v.push(fin);
    v
}

fn cursor_exec(m: u8, app_mode: bool, fin: u8) -> (v: Vec<u8>)
    requires
        1 <= m <= 8,
    ensures
        v@ == cursor_seq(m as nat, app_mode, fin),
{
    if m > 1 {
        csi_modified_exec(m, fin)
    } else if app_mode {
        let v: Vec<u8> = vec![0x1B, 0x4F, fin];
        assert(v@ =~= cursor_seq(m as nat, app_mode, fin));
        v
    } else {
        let v: Vec<u8> = vec![0x1B, 0x5B, fin];
        assert(v@ =~= cursor_seq(m as nat, app_mode, fin));
        v
    }
}

fn tilde_exec(m: u8, n: u8) -> (v: Vec<u8>)
    requires
        1 <= m <= 8,
    ensures
        v@ == tilde_seq(m as nat, n as nat),
{
    let mut v: Vec<u8> = Vec::new();
    v.push(0x1B);
    v.push(0x5B);
    push_decimal(&mut v, n as usize);
    if m > 1 {
        v.push(0x3B);
        push_decimal(&mut v, m as usize);
    }
    v.push(0x7E);
    assert(v@ =~= tilde_seq(m as nat, n as nat));
    v
}

fn pf_exec(m: u8, fin: u8) -> (v: Vec<u8>)
    requires
        1 <= m <= 8,
    ensures
        v@ == pf_seq(m as nat, fin),
{
    if m > 1 {
        csi_modified_exec(m, fin)
    } else {
        let v: Vec<u8> = vec![0x1B, 0x4F, fin];
        assert(v@ =~= pf_seq(m as nat, fin));
        v
    }
}

fn alt_exec(alt: bool, b: u8) -> (v: Vec<u8>)
    ensures
        v@ == alt_prefixed(alt, seq![b]),
{
    let v: Vec<u8> = if alt { vec![0x1B, b] } else { vec![b] };
    assert(v@ =~= alt_prefixed(alt, seq![b]));
    v
}

/// The escape sequence for a navigation, function or special key, with
/// xterm-style modifier encoding (modifier code = 1 + Shift + 2 * Alt +
/// 4 * Ctrl). Without modifiers the plain sequence is sent; arrow, Home and
/// End keys then use SS3 when `app_mode` (application cursor keys) is set.
pub fn build_key_seq(vk: u16, shift: bool, alt: bool, ctrl: bool, app_mode: bool) -> (r: Option<Vec<u8>>)
    ensures
        match key_seq(vk, shift, alt, ctrl, app_mode) {
            None => r is None,
            Some(s) => r matches Some(v) && v@ == s,
        },
{
    let m: u8 = 1 + (if shift { 1u8 } else { 0 }) + (if alt { 2u8 } else { 0 }) + (if ctrl { 4u8 } else { 0 });
    assert(m as nat == mod_code(shift, alt, ctrl));
    if vk == VK_UP { Some(cursor_exec(m, app_mode, 0x41)) }
    else if vk == VK_DOWN { Some(cursor_exec(m, app_mode, 0x42)) }
    else if vk == VK_RIGHT { Some(cursor_exec(m, app_mode, 0x43)) }
    else if vk == VK_LEFT { Some(cursor_exec(m, app_mode, 0x44)) }
    else if vk == VK_HOME { Some(cursor_exec(m, app_mode, 0x48)) }
    else if vk == VK_END { Some(cursor_exec(m, app_mode, 0x46)) }
    else if vk == VK_INSERT { Some(tilde_exec(m, 2)) }
    else if vk == VK_DELETE { Some(tilde_exec(m, 3)) }
    else if vk == VK_PRIOR { Some(tilde_exec(m, 5)) }
    else if vk == VK_NEXT { Some(tilde_exec(m, 6)) }
    else if vk == VK_F1 { Some(pf_exec(m, 0x50)) }
    else if vk == VK_F2 { Some(pf_exec(m, 0x51)) }
    else if vk == VK_F3 { Some(pf_exec(m, 0x52)) }
    else if vk == VK_F4 { Some(pf_exec(m, 0x53)) }
    else if vk == VK_F5 { Some(tilde_exec(m, 15)) }
    else if vk == VK_F6 { Some(tilde_exec(m, 17)) }
    else if vk == VK_F7 { Some(tilde_exec(m, 18)) }
    else if vk == VK_F8 { Some(tilde_exec(m, 19)) }
    else if vk == VK_F9 { Some(tilde_exec(m, 20)) }
    else if vk == VK_F10 { Some(tilde_exec(m, 21)) }
    else if vk == VK_F11 { Some(tilde_exec(m, 23)) }
    else if vk == VK_F12 { Some(tilde_exec(m, 24)) }
    else if vk == VK_BACK { Some(alt_exec(alt, 0x7F)) }
    else if vk == VK_RETURN { Some(alt_exec(alt, 0x0D)) }
    else if vk == VK_TAB {
        if shift {
            let v: Vec<u8> = vec![0x1B, 0x5B, 0x5A];
            assert(v@ =~= seq![0x1Bu8, 0x5Bu8, 0x5Au8]);
            Some(v)
        } else {
            Some(alt_exec(alt, 0x09))
        }
    }
    else if vk == VK_ESCAPE { Some(alt_exec(alt, 0x1B)) }
    else { None }
}

/// Keys that produce no character message after the key-down: navigation,
/// function, modifier and lock keys.
pub open spec fn is_non_char_key(vk: u16) -> bool {
    ||| VK_PRIOR <= vk <= VK_DOWN
    ||| vk == VK_INSERT || vk == VK_DELETE
    ||| VK_F1 <= vk <= VK_F24
    ||| VK_SHIFT <= vk <= VK_MENU
    ||| VK_LSHIFT <= vk <= VK_RMENU
    ||| VK_LWIN <= vk <= VK_APPS
    ||| vk == VK_CAPITAL || vk == VK_NUMLOCK || vk == VK_SCROLL
    ||| vk == VK_PAUSE || vk == VK_SNAPSHOT
}

/// Whether key `vk` is expected to produce a character message after its
/// key-down. Navigation and function keys do not, so a suppressed character
/// message after them would eat the next typed character.
pub fn vk_produces_char(vk: u16) -> (r: bool)
    ensures
        r == !is_non_char_key(vk),
{
    !((VK_PRIOR <= vk && vk <= VK_DOWN)
        || vk == VK_INSERT || vk == VK_DELETE
        || (VK_F1 <= vk && vk <= VK_F24)
        || (VK_SHIFT <= vk && vk <= VK_MENU)
        || (VK_LSHIFT <= vk && vk <= VK_RMENU)
        || (VK_LWIN <= vk && vk <= VK_APPS)
        || vk == VK_CAPITAL || vk == VK_NUMLOCK || vk == VK_SCROLL
        || vk == VK_PAUSE || vk == VK_SNAPSHOT)
}

/// The button code of a mouse report: the button plus 32 for motion, 4 for
/// Shift, 8 for Alt and 16 for Ctrl.
pub open spec fn mouse_code(button: u8, motion: bool, shift: bool, alt: bool, ctrl: bool) -> int {
    button + (if motion { 32int } else { 0 }) + (if shift { 4int } else { 0 }) + (if alt { 8int } else { 0 })
        + (if ctrl { 16int } else { 0 })
}

/// The report sent for a mouse event at (`row`, `col`) (0-based), or
/// `None` when reporting is off or the X10 encoding cannot carry the
/// position.
pub open spec fn spec_mouse_report(
    mode: MouseMode,
    enc: MouseEncoding,
    button: u8,
    row: nat,
    col: nat,
    pressed: bool,
    motion: bool,
    shift: bool,
    alt: bool,
    ctrl: bool,
) -> Option<Seq<u8>> {
    let cb = mouse_code(button, motion, shift, alt, ctrl);
    if mode == MouseMode::Off {
        None
    } else if enc == MouseEncoding::Sgr {
        Some(seq![0x1Bu8, 0x5Bu8, 0x3Cu8] + decimal(cb as nat) + seq![0x3Bu8] + decimal(col + 1) + seq![0x3Bu8]
            + decimal(row + 1) + seq![if pressed { 0x4Du8 } else { 0x6Du8 }])
    } else if col + 1 <= 223 && row + 1 <= 223 {
        Some(seq![0x1Bu8, 0x5Bu8, 0x4Du8, (cb + 32) as u8, (col + 1 + 32) as u8, (row + 1 + 32) as u8])
    } else {
        None
    }
}

/// The bytes reporting a mouse event to the program, given the reporting
/// mode and encoding and the modifier keys held.
pub fn mouse_report(
    mode: MouseMode,
    enc: MouseEncoding,
    button: u8,
    row: usize,
    col: usize,
    pressed: bool,
    motion: bool,
    shift: bool,
    alt: bool,
    ctrl: bool,
) -> (r: Option<Vec<u8>>)
    requires
        mode != MouseMode::Off ==> mouse_code(button, motion, shift, alt, ctrl) + (if enc == MouseEncoding::Normal { 32int } else { 0 }) <= 255,
        mode != MouseMode::Off ==> row < usize::MAX && col < usize::MAX,
    ensures
        match spec_mouse_report(mode, enc, button, row as nat, col as nat, pressed, motion, shift, alt, ctrl) {
            None => r is None,
            Some(s) => r matches Some(v) && v@ == s,
        },
{
    if mode == MouseMode::Off {
        return None;
    }
    let cb = button_code(button, motion, shift, alt, ctrl);
    let cx = col + 1;
    let cy = row + 1;
    match enc {
        MouseEncoding::Sgr => Some(sgr_report(cb, cx, cy, pressed)),
        MouseEncoding::Normal => {
            if cx <= 223 && cy <= 223 {
                let v: Vec<u8> = vec![0x1B, 0x5B, 0x4D, cb + 32, cx as u8 + 32, cy as u8 + 32];
                assert(v@ =~= seq![0x1Bu8, 0x5Bu8, 0x4Du8, (cb + 32) as u8, (cx + 32) as u8, (cy + 32) as u8]);
                Some(v)
            } else {
                None
            }
        },
    }
}

fn button_code(button: u8, motion: bool, shift: bool, alt: bool, ctrl: bool) -> (cb: u8)
    requires
        mouse_code(button, motion, shift, alt, ctrl) <= 255,
    ensures
        cb == mouse_code(button, motion, shift, alt, ctrl),
{
    let mut cb: u8 = button;
    if motion {
        cb = cb + 32;
    }
    if shift {
        cb = cb + 4;
    }
    if alt {
        cb = cb + 8;
    }
    if ctrl {
        cb = cb + 16;
    }
    cb
}

/// `ESC [ < cb ; cx ; cy M` (press) or `... m` (release).
fn sgr_report(cb: u8, cx: usize, cy: usize, pressed: bool) -> (v: Vec<u8>)
    ensures
        v@ == seq![0x1Bu8, 0x5Bu8, 0x3Cu8] + decimal(cb as nat) + seq![0x3Bu8] + decimal(cx as nat) + seq![0x3Bu8]
            + decimal(cy as nat) + seq![if pressed { 0x4Du8 } else { 0x6Du8 }],
{
    let mut v: Vec<u8> = Vec::new();
    v.push(0x1B);
    v.push(0x5B);
    v.push(0x3C);
    push_decimal(&mut v, cb as usize);
    v.push(0x3B);
    push_decimal(&mut v, cx);
    v.push(0x3B);
    push_decimal(&mut v, cy);
    v.push(if pressed { 0x4D } else { 0x6D });
    assert(v@ =~= seq![0x1Bu8, 0x5Bu8, 0x3Cu8] + decimal(cb as nat) + seq![0x3Bu8] + decimal(cx as nat) + seq![0x3Bu8]
            + decimal(cy as nat) + seq![if pressed { 0x4Du8 } else { 0x6Du8 }]);
    v
}

/// Bracketed-paste start marker `ESC [ 200 ~`.
pub open spec fn paste_start() -> Seq<u8> {
    seq![0x1Bu8, 0x5Bu8, 0x32u8, 0x30u8, 0x30u8, 0x7Eu8]
}

/// Bracketed-paste end marker `ESC [ 201 ~`.
pub open spec fn paste_end() -> Seq<u8> {
    seq![0x1Bu8, 0x5Bu8, 0x32u8, 0x30u8, 0x31u8, 0x7Eu8]
}

/// The bytes sent for pasted text: framed by the bracketed-paste markers
/// when that mode is on, as they are otherwise.
pub fn paste_bytes(bracketed: bool, text: &[u8]) -> (v: Vec<u8>)
    ensures
        v@ == if bracketed { paste_start() + text@ + paste_end() } else { text@ },
{
    let mut v: Vec<u8> = Vec::new();
    if bracketed {
        v.push(0x1B);
        v.push(0x5B);
        v.push(0x32);
        v.push(0x30);
        v.push(0x30);
        v.push(0x7E);
    }
    let ghost head = v@;
    let mut i: usize = 0;
    while i < text.len()
        invariant
            i <= text@.len(),
            v@ == head + text@.take(i as int),
        decreases text@.len() - i,
    {
        v.push(text[i]);
        i = i + 1;
        assert(v@ =~= head + text@.take(i as int));
    }
    assert(text@.take(text@.len() as int) =~= text@);
    if bracketed {
        v.push(0x1B);
        v.push(0x5B);
        v.push(0x32);
        v.push(0x30);
        v.push(0x31);
        v.push(0x7E);
    }
    assert(v@ =~= if bracketed { paste_start() + text@ + paste_end() } else { text@ });
    v
}

/// A cell position clamped to a grid of `rows` x `cols` (both clamp to 0
/// on an empty grid).
pub fn clamp_to_grid(row: usize, col: usize, rows: usize, cols: usize) -> (p: (usize, usize))
    ensures
        p.0 == if row < rows { row as int } else if rows == 0 { 0 } else { rows - 1 },
        p.1 == if col < cols { col as int } else if cols == 0 { 0 } else { cols - 1 },
{
    let last_row = if rows > 0 { rows - 1 } else { 0 };
    let last_col = if cols > 0 { cols - 1 } else { 0 };
    (if row < last_row { row } else { last_row }, if col < last_col { col } else { last_col })
}

// ---------------------------------------------------------------------
// Typed characters
// ---------------------------------------------------------------------

/// One UTF-16 code unit of typed text, given the pending high surrogate:
/// the new pending surrogate and the completed character, if any. A high
/// surrogate waits for its partner; a low surrogate without one is
/// dropped.
pub open spec fn utf16_step(high: Option<u16>, unit: u16) -> (Option<u16>, Option<char>) {
    if 0xD800 <= unit <= 0xDBFF {
        (Some(unit), None)
    } else if 0xDC00 <= unit <= 0xDFFF {
        match high {
            Some(h) => (None, Some((0x10000 + (h - 0xD800) * 0x400 + (unit - 0xDC00)) as u32 as char)),
            None => (None, None),
        }
    } else {
        (None, Some(unit as u32 as char))
    }
}

/// Decodes one UTF-16 code unit of typed text, keeping a high surrogate
/// pending in `high` until its low surrogate arrives.
pub fn decode_utf16_unit(high: &mut Option<u16>, unit: u16) -> (c: Option<char>)
    requires
        *old(high) matches Some(h) ==> 0xD800 <= h <= 0xDBFF,
    ensures
        (*final(high), c) == utf16_step(*old(high), unit),
        *final(high) matches Some(h) ==> 0xD800 <= h <= 0xDBFF,
{
    if 0xD800 <= unit && unit <= 0xDBFF {
        *high = Some(unit);
        None
    } else if 0xDC00 <= unit && unit <= 0xDFFF {
        match high.take() {
            Some(h) => {
                let hi: u32 = (h - 0xD800) as u32;
                let lo: u32 = (unit - 0xDC00) as u32;
                assert(hi <= 0x3FF && lo <= 0x3FF);
                let cp: u32 = 0x10000 + hi * 0x400 + lo;
                match char_from_u32(cp) {
                    Some(c) => Some(c),
                    None => Some('?'),
                }
            },
            None => None,
        }
    } else {
        *high = None;
        match char_from_u32(unit as u32) {
            Some(c) => Some(c),
            None => Some('?'),
        }
    }
}

/// The UTF-8 bytes of `c`.
pub fn char_utf8(c: char) -> (v: Vec<u8>)
    ensures
        v@ == encode_utf8(seq![c]),
{
    let one: [char; 1] = [c];
    assert(one@ =~= seq![c]);
    let s = string_from_chars(&one);
    let b = s.as_str().as_bytes();
    let mut v: Vec<u8> = Vec::new();
    let mut i: usize = 0;
    while i < b.len()
        invariant
            i <= b@.len(),
            v@ == b@.take(i as int),
        decreases b@.len() - i,
    {
        v.push(b[i]);
        i = i + 1;
        assert(v@ =~= b@.take(i as int));
    }
    assert(b@.take(b@.len() as int) =~= b@);
    v
}

/// A control character (general category Cc): U+0000..U+001F and
/// U+007F..U+009F.
pub open spec fn is_control(c: char) -> bool {
    (c as u32) <= 0x1F || (0x7F <= (c as u32) <= 0x9F)
}

/// What Alt with a typed character sends: ESC and the character's UTF-8,
/// for characters that are not control characters.
pub open spec fn spec_alt_char(code: u32) -> Option<Seq<u8>> {
    if is_scalar_value(code) && !is_control(code as char) {
        Some(seq![0x1Bu8] + encode_utf8(seq![code as char]))
    } else {
        None
    }
}

/// The bytes sent for Alt with character `code` (meta sends escape), or
/// `None` when the code is not a character or is a control character.
pub fn alt_char_bytes(code: u32) -> (r: Option<Vec<u8>>)
    ensures
        match spec_alt_char(code) {
            None => r is None,
            Some(s) => r matches Some(v) && v@ == s,
        },
{
    match char_from_u32(code) {
        Some(c) => {
            let u = c as u32;
            if u <= 0x1F || (0x7F <= u && u <= 0x9F) {
                None
            } else {
                let mut v: Vec<u8> = Vec::new();
                v.push(0x1B);
                let tail = char_utf8(c);
                let mut i: usize = 0;
                while i < tail.len()
                    invariant
                        i <= tail@.len(),
                        v@ == seq![0x1Bu8] + tail@.take(i as int),
                    decreases tail@.len() - i,
                {
                    v.push(tail[i]);
                    i = i + 1;
                    assert(v@ =~= seq![0x1Bu8] + tail@.take(i as int));
                }
                assert(tail@.take(tail@.len() as int) =~= tail@);
                Some(v)
            }
        },
        None => None,
    }
}

// ---------------------------------------------------------------------
// Mouse wheel and motion
// ---------------------------------------------------------------------

/// Lines scrolled for a wheel movement of `delta`: three per notch (120),
/// at least one notch.
pub open spec fn spec_wheel_lines(delta: i32) -> int {
    let notches = (if delta < 0 { -delta } else { delta as int }) / 120;
    (if notches < 1 { 1 } else { notches }) * 3
}

/// Lines to scroll the view for a wheel movement.
pub fn wheel_lines(delta: i32) -> (n: usize)
    requires
        delta > i32::MIN,
    ensures
        n == spec_wheel_lines(delta),
{
    let a: i32 = if delta < 0 { -delta } else { delta };
    let notches: i32 = a / 120;
    let k: usize = if notches < 1 { 1 } else { notches as usize };
    k * 3
}

/// The button code reporting a wheel movement: 64 up, 65 down.
pub fn wheel_button(delta: i32) -> (b: u8)
    ensures
        b == if delta > 0 { 64u8 } else { 65u8 },
{
    if delta > 0 { 64 } else { 65 }
}

/// The button code a mouse move reports: 0 (the held left button) when a
/// button is held and motion with buttons is reported, 3 (no button) when
/// all motion is reported, nothing otherwise.
pub open spec fn spec_motion_button(mode: MouseMode, pressed: bool) -> Option<u8> {
    if mode == MouseMode::Off {
        None
    } else if pressed && (mode == MouseMode::ButtonMotion || mode == MouseMode::AnyMotion) {
        Some(0)
    } else if mode == MouseMode::AnyMotion {
        Some(3)
    } else {
        None
    }
}

/// Which motion report a mouse move makes, if any.
pub fn motion_button(mode: MouseMode, pressed: bool) -> (b: Option<u8>)
    ensures
        b == spec_motion_button(mode, pressed),
{
    match mode {
        MouseMode::Off => None,
        MouseMode::Press => None,
        MouseMode::ButtonMotion => if pressed { Some(0) } else { None },
        MouseMode::AnyMotion => if pressed { Some(0) } else { Some(3) },
    }
}

// ---------------------------------------------------------------------
// Key presses
// ---------------------------------------------------------------------

/// What a key press leads to.
pub enum KeyOutcome {
    /// A key binding's action.
    Bound(Action),
    /// Bytes for the program.
    Send(Vec<u8>),
    /// Left to the system.
    Unhandled,
}

pub enum KeyOutcomeModel {
    Bound(Action),
    Send(Seq<u8>),
    Unhandled,
}

impl View for KeyOutcome {
    type V = KeyOutcomeModel;

    open spec fn view(&self) -> KeyOutcomeModel {
        match self {
            KeyOutcome::Bound(a) => KeyOutcomeModel::Bound(*a),
            KeyOutcome::Send(v) => KeyOutcomeModel::Send(v@),
            KeyOutcome::Unhandled => KeyOutcomeModel::Unhandled,
        }
    }
}

/// A key press: bindings first (matched with the modifiers held), then
/// the key's escape sequence; with the system key (Alt held) the sequence
/// is Alt-modified and Alt+F4 is left to the system. The flag says whether
/// the character message that follows the key must be swallowed.
pub open spec fn spec_key_down(
    bindings: Seq<crate::keys::Binding>,
    vk: u16,
    ctrl: bool,
    shift: bool,
    alt_held: bool,
    sys: bool,
    app_mode: bool,
) -> (KeyOutcomeModel, bool) {
    match first_match(bindings, vk, spec_modifier_mask(ctrl, shift, alt_held)) {
        Some(a) => (KeyOutcomeModel::Bound(a), !is_non_char_key(vk)),
        None => if sys && vk == VK_F4 {
            (KeyOutcomeModel::Unhandled, false)
        } else {
            match key_seq(vk, shift, sys, ctrl, app_mode) {
                Some(s) => (KeyOutcomeModel::Send(s), !is_non_char_key(vk)),
                None => (KeyOutcomeModel::Unhandled, false),
            }
        },
    }
}

/// Decides what a key press does.
pub fn key_down(
    keys: &KeybindingEngine,
    vk: u16,
    ctrl: bool,
    shift: bool,
    alt_held: bool,
    sys: bool,
    app_mode: bool,
) -> (r: (KeyOutcome, bool))
    ensures
        (r.0@, r.1) == spec_key_down(keys@, vk, ctrl, shift, alt_held, sys, app_mode),
{
    let mods = modifier_mask(ctrl, shift, alt_held);
    match keys.match_key(vk, mods) {
        Some(a) => (KeyOutcome::Bound(a), vk_produces_char(vk)),
        None => {
            if sys && vk == VK_F4 {
                return (KeyOutcome::Unhandled, false);
            }
            match build_key_seq(vk, shift, sys, ctrl, app_mode) {
                Some(v) => (KeyOutcome::Send(v), vk_produces_char(vk)),
                None => (KeyOutcome::Unhandled, false),
            }
        },
    }
}

/// Bracketed paste wraps the pasted bytes in `ESC [ 2 0 0 ~` and
/// `ESC [ 2 0 1 ~`; otherwise they go as they are.
pub proof fn lemma_paste_brackets(bracketed: bool, text: Seq<u8>)
    ensures
        (if bracketed { paste_start() + text + paste_end() } else { text }) == if bracketed {
            seq![0x1Bu8, 0x5Bu8, 0x32u8, 0x30u8, 0x30u8, 0x7Eu8] + text + seq![0x1Bu8, 0x5Bu8, 0x32u8, 0x30u8, 0x31u8, 0x7Eu8]
        } else {
            text
        },
{
    assert(paste_start() =~= seq![0x1Bu8, 0x5Bu8, 0x32u8, 0x30u8, 0x30u8, 0x7Eu8]);
    assert(paste_end() =~= seq![0x1Bu8, 0x5Bu8, 0x32u8, 0x30u8, 0x31u8, 0x7Eu8]);
}

/// A mouse event is reported only while reporting is on. Its button code
/// is the button plus 32 for motion, 4 for Shift, 8 for Alt and 16 for
/// Ctrl. The SGR encoding sends `ESC [ < code ; column ; row` and `M` for
/// a press or `m` for a release (1-based column and row in decimal); the
/// X10 encoding sends `ESC [ M` and three bytes, each 32 plus the code,
/// the 1-based column and the 1-based row, and nothing past column or row
/// 223.
pub proof fn lemma_mouse_reports(
    mode: MouseMode,
    enc: MouseEncoding,
    button: u8,
    row: nat,
    col: nat,
    pressed: bool,
    motion: bool,
    shift: bool,
    alt: bool,
    ctrl: bool,
)
    ensures
        ({
            let code: int = button + (if motion { 32int } else { 0 }) + (if shift { 4int } else { 0 })
                + (if alt { 8int } else { 0 }) + (if ctrl { 16int } else { 0 });
            let r = spec_mouse_report(mode, enc, button, row, col, pressed, motion, shift, alt, ctrl);
            &&& mode == MouseMode::Off ==> r is None
            &&& (mode != MouseMode::Off && enc == MouseEncoding::Sgr) ==> r == Some(
                seq![0x1Bu8, 0x5Bu8, 0x3Cu8] + decimal(code as nat) + seq![0x3Bu8] + decimal(col + 1) + seq![0x3Bu8]
                    + decimal(row + 1) + seq![if pressed { 0x4Du8 } else { 0x6Du8 }],
            )
            &&& (mode != MouseMode::Off && enc == MouseEncoding::Normal) ==> r == if col < 223 && row < 223 {
                Some(seq![0x1Bu8, 0x5Bu8, 0x4Du8, (code + 32) as u8, (col + 33) as u8, (row + 33) as u8])
            } else {
                None
            }
        }),
{
}

/// The mouse wheel scrolls 3 lines per notch (120 units of delta, either
/// direction), and at least 3 lines for any movement.
pub proof fn lemma_wheel_lines(delta: i32)
    ensures
        ({
            let mag: int = if delta < 0 { -(delta as int) } else { delta as int };
            &&& spec_wheel_lines(delta) == 3 * (if mag < 240 { 1 } else { mag / 120 })
            &&& spec_wheel_lines(delta) >= 3
            &&& delta > i32::MIN ==> spec_wheel_lines(delta) == spec_wheel_lines((-delta) as i32)
        }),
{
}

/// Typed text arrives as UTF-16: a character outside the basic plane
/// comes as its surrogate pair (high `0xD800 + (c - 0x10000) / 0x400`,
/// then low `0xDC00 + (c - 0x10000) % 0x400`), and decoding the pair gives
/// the character back, nothing being emitted for the high half; any other
/// character is its own unit and comes out at once, with nothing pending.
pub proof fn lemma_utf16_round_trip(c: char)
    ensures
        ({
            let u = c as u32;
            &&& u >= 0x10000 ==> {
                let hi = (0xD800 + (u - 0x10000) / 0x400) as u16;
                let lo = (0xDC00 + (u - 0x10000) % 0x400) as u16;
                &&& utf16_step(None, hi) == (Some(hi), None::<char>)
                &&& utf16_step(Some(hi), lo) == (None::<u16>, Some(c))
            }
            &&& u < 0x10000 ==> utf16_step(None, u as u16) == (None::<u16>, Some(c))
        }),
{
    let u = c as u32;
    assert(u <= 0x10FFFF && !(0xD800 <= u <= 0xDFFF)) by {
        vstd::utf8::char_is_scalar(c);
    }
    if u >= 0x10000 {
        let v = u - 0x10000;
        assert(v / 0x400 <= 0x3FF);
        assert(0x10000 + (v / 0x400) * 0x400 + v % 0x400 == u);
    }
}

/// Alt with a character that is not a control character sends ESC and
/// then bytes that are valid UTF-8 and decode to exactly that character;
/// with a control character (U+0000..U+001F, U+007F..U+009F) it sends
/// nothing.
pub proof fn lemma_alt_char(c: char)
    ensures
        ((c as u32) <= 0x1F || (0x7F <= (c as u32) <= 0x9F)) ==> spec_alt_char(c as u32) is None,
        !((c as u32) <= 0x1F || (0x7F <= (c as u32) <= 0x9F)) ==> {
            &&& spec_alt_char(c as u32) is Some
            &&& spec_alt_char(c as u32)->Some_0[0] == 0x1Bu8
            &&& vstd::utf8::valid_utf8(spec_alt_char(c as u32)->Some_0.skip(1))
            &&& vstd::utf8::decode_utf8(spec_alt_char(c as u32)->Some_0.skip(1)) == seq![c]
        },
{
    vstd::utf8::char_is_scalar(c);
    assert(((c as u32) as char) == c);
    assert(is_scalar_value(c as u32));
    let s = encode_utf8(seq![c]);
    vstd::utf8::encode_utf8_valid_utf8(seq![c]);
    vstd::utf8::encode_utf8_decode_utf8(seq![c]);
    assert((seq![0x1Bu8] + s).skip(1) =~= s);
}

} // verus!
