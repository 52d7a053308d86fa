//! The input forwarder's decisions: pointer coalescing against the last
//! forwarded state, and the synthesized key sequences. The session calls
//! themselves, and the scaling of window coordinates into remote-screen
//! space, stay with the caller.

use vstd::prelude::*;

verus! {

/// Pointer button bitmask: the primary button.
pub const BUTTON_PRIMARY: u8 = 0x01;

/// Pointer button bitmask: the middle button.
pub const BUTTON_MIDDLE: u8 = 0x02;

/// Pointer button bitmask: the secondary button.
pub const BUTTON_SECONDARY: u8 = 0x04;

/// Keysym of the left Control key.
pub const KEYSYM_CONTROL: u32 = 0xFFE3;

/// Keysym of the left Alt key.
pub const KEYSYM_ALT: u32 = 0xFFE9;

/// Keysym of the Delete key.
pub const KEYSYM_DELETE: u32 = 0xFFFF;

/// Keysym of the Escape key.
pub const KEYSYM_ESCAPE: u32 = 0xFF1B;

/// A pointer position in remote-screen coordinates.
#[derive(Clone, Copy, Debug, PartialEq, Eq, Structural)]
pub struct PointerPos {
    pub x: u16,
    pub y: u16,
}

/// The last forwarded pointer position and button mask, used to suppress
/// redundant outbound pointer messages.
#[derive(Clone, Copy, Debug, PartialEq, Eq, Structural)]
pub struct ThrottleState {
    pub last_pos: Option<PointerPos>,
    pub last_buttons: u8,
}

/// One outbound key transition.
#[derive(Clone, Copy, Debug, PartialEq, Eq, Structural)]
pub struct KeyEvent {
    pub pressed: bool,
    pub keysym: u32,
}

impl ThrottleState {
    /// Whether a pointer event at `(x, y)` with `buttons` must be sent:
    /// only when position or button state differs from the last forwarded
    /// one, and never while the view-only restriction is set.
    pub open spec fn spec_should_send(self, x: u16, y: u16, buttons: u8, view_only: bool) -> bool {
        !view_only && (self.last_pos != Some(PointerPos { x, y }) || self.last_buttons != buttons)
    }

    /// Decides whether the pointer event is forwarded, and if so records
    /// it as the last forwarded state; a suppressed event changes nothing.
    pub fn note_pointer(&mut self, x: u16, y: u16, buttons: u8, view_only: bool) -> (send: bool)
        ensures
            send == old(self).spec_should_send(x, y, buttons, view_only),
            send ==> *final(self) == (ThrottleState {
                last_pos: Some(PointerPos { x, y }),
                last_buttons: buttons,
            }),
            !send ==> *final(self) == *old(self),
    {
        if view_only {
            return false;
        }
        let same_pos = match self.last_pos {
            Some(p) => p.x == x && p.y == y,
            None => false,
        };
        if same_pos && self.last_buttons == buttons {
            false
        } else {
            self.last_pos = Some(PointerPos { x, y });
            self.last_buttons = buttons;
            true
        }
    }
}

/// The keysym a text character without a direct key mapping is sent as:
/// the Unicode code point, offset into the keysym code-point range.
pub open spec fn spec_char_keysym(c: char) -> u32 {
    (0x0100_0000 + c as u32) as u32
}

/// The keysym a text character without a direct key mapping is sent as.
pub fn char_keysym(c: char) -> (k: u32)
    ensures
        k == spec_char_keysym(c),
{
    0x0100_0000 + (c as u32)
}

/// The press/release pair synthesized for a text character that has no
/// direct key-symbol mapping.
pub fn char_key_events(c: char) -> (evs: Vec<KeyEvent>)
    ensures
        evs@.len() == 2,
        evs@[0] == (KeyEvent { pressed: true, keysym: spec_char_keysym(c) }),
        evs@[1] == (KeyEvent { pressed: false, keysym: spec_char_keysym(c) }),
{
    let k = char_keysym(c);
    let mut evs: Vec<KeyEvent> = Vec::new();
    evs.push(KeyEvent { pressed: true, keysym: k });
    evs.push(KeyEvent { pressed: false, keysym: k });
    evs
}

/// The Ctrl-Alt-Del chord: the three keys pressed in order, then released
/// in reverse order.
pub fn ctrl_alt_del_events() -> (evs: Vec<KeyEvent>)
    ensures
        evs@.len() == 6,
        evs@[0] == (KeyEvent { pressed: true, keysym: KEYSYM_CONTROL }),
        evs@[1] == (KeyEvent { pressed: true, keysym: KEYSYM_ALT }),
        evs@[2] == (KeyEvent { pressed: true, keysym: KEYSYM_DELETE }),
        evs@[3] == (KeyEvent { pressed: false, keysym: KEYSYM_DELETE }),
        evs@[4] == (KeyEvent { pressed: false, keysym: KEYSYM_ALT }),
        evs@[5] == (KeyEvent { pressed: false, keysym: KEYSYM_CONTROL }),
{
    let mut evs: Vec<KeyEvent> = Vec::new();
    evs.push(KeyEvent { pressed: true, keysym: KEYSYM_CONTROL });
    evs.push(KeyEvent { pressed: true, keysym: KEYSYM_ALT });
    evs.push(KeyEvent { pressed: true, keysym: KEYSYM_DELETE });
    evs.push(KeyEvent { pressed: false, keysym: KEYSYM_DELETE });
    evs.push(KeyEvent { pressed: false, keysym: KEYSYM_ALT });
    evs.push(KeyEvent { pressed: false, keysym: KEYSYM_CONTROL });
    evs
}

/// The Win-key chord, sent as Ctrl+Escape: pressed in order, released in
/// reverse order.
pub fn win_key_events() -> (evs: Vec<KeyEvent>)
    ensures
        evs@.len() == 4,
        evs@[0] == (KeyEvent { pressed: true, keysym: KEYSYM_CONTROL }),
        evs@[1] == (KeyEvent { pressed: true, keysym: KEYSYM_ESCAPE }),
        evs@[2] == (KeyEvent { pressed: false, keysym: KEYSYM_ESCAPE }),
        evs@[3] == (KeyEvent { pressed: false, keysym: KEYSYM_CONTROL }),
{
    let mut evs: Vec<KeyEvent> = Vec::new();
    evs.push(KeyEvent { pressed: true, keysym: KEYSYM_CONTROL });
    evs.push(KeyEvent { pressed: true, keysym: KEYSYM_ESCAPE });
    evs.push(KeyEvent { pressed: false, keysym: KEYSYM_ESCAPE });
    evs.push(KeyEvent { pressed: false, keysym: KEYSYM_CONTROL });
    evs
}

} // verus!
