//! Keymap translator decisions: how a raw hardware key event maps into the
//! layout's keycode space, whether it is dropped as a suppressed repeat,
//! whether it updates the layout state upward or downward, whether it emits
//! output, and the modifier prefix that decorates emitted output.
//!
//! Resolving a keycode to a symbol name, and reading the effective modifier
//! flags, are the compiled keymap's work and happen outside this library; the
//! functions here decide everything that follows from the raw event and from
//! those plain answers.

use vstd::prelude::*;

verus! {

/// Offset between a hardware scancode and the layout library's keycode space,
/// applied uniformly to every event.
pub const KEYCODE_OFFSET: u16 = 8;

/// Event-class code of key events in the input subsystem; events of any other
/// class never reach the translator.
pub const EVENT_TYPE_KEY: u16 = 1;

/// Raw event value for a key release.
pub const KEY_STATE_RELEASE: i32 = 0;

/// Raw event value for a fresh key press.
pub const KEY_STATE_PRESS: i32 = 1;

/// Raw event value for a synthetic key repeat.
pub const KEY_STATE_REPEAT: i32 = 2;

/// What the translator does with one raw key event.
#[derive(Clone, Copy, Debug, PartialEq, Eq, Structural)]
pub enum KeyAction {
    /// A synthetic repeat of a keycode the layout marks non-repeating:
    /// no layout-state update, no output.
    Drop,
    /// Update the layout state for this transition (`up` tells which
    /// direction), and emit output afterwards exactly when `emit` holds.
    Update { up: bool, emit: bool },
}

/// The decision taken for a raw event value, given whether the layout
/// declares the event's keycode repeat-eligible: a repeat of a non-repeating
/// key is dropped whole; otherwise the layout state is updated (upward only
/// for a release) and only a fresh press emits output.
pub open spec fn classify_spec(value: i32, repeats: bool) -> KeyAction {
    if value == KEY_STATE_REPEAT && !repeats {
        KeyAction::Drop
    } else {
        KeyAction::Update { up: value == KEY_STATE_RELEASE, emit: value == KEY_STATE_PRESS }
    }
}

/// Decide what one raw key event does, from its value and from the keymap's
/// answer whether its keycode repeats.
pub fn classify(value: i32, repeats: bool) -> (a: KeyAction)
    ensures
        a == classify_spec(value, repeats),
{
    if value == KEY_STATE_REPEAT && !repeats {
        KeyAction::Drop
    } else {
        KeyAction::Update { up: value == KEY_STATE_RELEASE, emit: value == KEY_STATE_PRESS }
    }
}

/// Whether a raw event belongs to the key event class; everything else is
/// discarded before translation.
pub fn is_key_event(type_code: u16) -> (r: bool)
    ensures
        r == (type_code == EVENT_TYPE_KEY),
{
    type_code == EVENT_TYPE_KEY
}

/// Map a hardware scancode into the layout library's keycode space.
pub fn keycode_for_scancode(scancode: u16) -> (kc: u32)
    ensures
        kc == scancode + KEYCODE_OFFSET,
{
    scancode as u32 + KEYCODE_OFFSET as u32
}

/// The modifier prefix written before a key name: the active qualifying
/// modifiers in fixed order, Control first, then Alt, each as `"<name> + "`.
pub open spec fn prefix_spec(ctrl: bool, alt: bool) -> Seq<char> {
    (if ctrl {
        "ctrl + "@
    } else {
        Seq::<char>::empty()
    }) + (if alt {
        "alt + "@
    } else {
        Seq::<char>::empty()
    })
}

/// Build the modifier prefix for the flags in effect after the press.
pub fn modifier_prefix(ctrl: bool, alt: bool) -> (s: String)
    ensures
        s@ == prefix_spec(ctrl, alt),
{
    let mut s = String::new();
    if ctrl {
        s.append("ctrl + ");
    }
    if alt {
        s.append("alt + ");
    }
    proof {
        assert(s@ =~= prefix_spec(ctrl, alt));
    }
    s
}

} // verus!
