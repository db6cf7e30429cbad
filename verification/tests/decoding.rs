//! Behaviour of the translator decisions and the phrase accumulator.

use nenuphar::phrase::PhraseBuffer;
use nenuphar::session::emit_display;
use nenuphar::translate::{
    classify, is_key_event, keycode_for_scancode, modifier_prefix, KeyAction,
};

#[test]
fn two_presses_within_gap_concatenate() {
    let mut b = PhraseBuffer::new(0);
    let first = emit_display(&mut b, false, false, "A", 50);
    assert_eq!(first, "A ");
    let second = emit_display(&mut b, false, false, "B", 150);
    assert_eq!(second, "A B ");
}

#[test]
fn ctrl_chord_is_prefixed_and_resets() {
    let mut b = PhraseBuffer::new(0);
    let _ = emit_display(&mut b, false, false, "A", 100);
    let held = emit_display(&mut b, true, false, "Control_L", 200);
    assert_eq!(held, "ctrl + Control_L ");
    let chord = emit_display(&mut b, true, false, "C", 300);
    assert_eq!(chord, "ctrl + C ");
}

#[test]
fn alt_chord_is_prefixed_and_resets() {
    let mut b = PhraseBuffer::new(0);
    let _ = emit_display(&mut b, false, false, "A", 100);
    let chord = emit_display(&mut b, false, true, "Tab", 200);
    assert_eq!(chord, "alt + Tab ");
}

#[test]
fn idle_gap_discards_previous_text() {
    let mut b = PhraseBuffer::new(0);
    let first = emit_display(&mut b, false, false, "X", 100);
    assert_eq!(first, "X ");
    let second = emit_display(&mut b, false, false, "Y", 2700);
    assert_eq!(second, "Y ");
}

#[test]
fn gap_at_exactly_threshold_keeps_text() {
    let mut b = PhraseBuffer::new(0);
    let _ = emit_display(&mut b, false, false, "A", 0);
    let second = emit_display(&mut b, false, false, "B", 2000);
    assert_eq!(second, "A B ");
}

#[test]
fn gap_measured_from_last_accept() {
    let mut b = PhraseBuffer::new(0);
    let _ = emit_display(&mut b, false, false, "A", 1500);
    let second = emit_display(&mut b, false, false, "B", 3000);
    assert_eq!(second, "A B ");
    let third = emit_display(&mut b, false, false, "C", 5100);
    assert_eq!(third, "C ");
}

#[test]
fn display_returns_current_buffer() {
    let mut b = PhraseBuffer::new(7);
    assert_eq!(b.display(), "");
    assert_eq!(b.last_event_ms(), 7);
    let _ = emit_display(&mut b, false, false, "Q", 10);
    assert_eq!(b.display(), "Q ");
    assert_eq!(b.last_event_ms(), 10);
}

#[test]
fn repeat_of_non_repeating_key_is_dropped() {
    assert_eq!(classify(2, false), KeyAction::Drop);
}

#[test]
fn repeat_of_repeating_key_updates_without_output() {
    assert_eq!(classify(2, true), KeyAction::Update { up: false, emit: false });
}

#[test]
fn release_updates_upward_without_output() {
    assert_eq!(classify(0, true), KeyAction::Update { up: true, emit: false });
    assert_eq!(classify(0, false), KeyAction::Update { up: true, emit: false });
}

#[test]
fn press_updates_downward_and_emits() {
    assert_eq!(classify(1, true), KeyAction::Update { up: false, emit: true });
    assert_eq!(classify(1, false), KeyAction::Update { up: false, emit: true });
}

#[test]
fn scancode_is_offset_into_keycode_space() {
    assert_eq!(keycode_for_scancode(30), 38);
    assert_eq!(keycode_for_scancode(0), 8);
    assert_eq!(keycode_for_scancode(u16::MAX), 65535 + 8);
}

#[test]
fn only_key_class_events_pass() {
    assert!(is_key_event(1));
    assert!(!is_key_event(0));
    assert!(!is_key_event(2));
}

#[test]
fn modifier_prefix_orders_ctrl_before_alt() {
    assert_eq!(modifier_prefix(false, false), "");
    assert_eq!(modifier_prefix(true, false), "ctrl + ");
    assert_eq!(modifier_prefix(false, true), "alt + ");
    assert_eq!(modifier_prefix(true, true), "ctrl + alt + ");
}

#[test]
fn device_workers_are_isolated() {
    // Two devices own their buffers independently: device A's worker dying
    // mid-stream leaves device B's phrase and clock untouched.
    let mut a = PhraseBuffer::new(0);
    let mut b = PhraseBuffer::new(0);
    let mut control = PhraseBuffer::new(0);

    let _ = emit_display(&mut a, false, false, "A", 10);
    let b1 = emit_display(&mut b, false, false, "H", 20);
    let c1 = emit_display(&mut control, false, false, "H", 20);
    assert_eq!(b1, c1);

    drop(a);  // device A's worker terminates on a read error

    let b2 = emit_display(&mut b, false, false, "I", 30);
    let c2 = emit_display(&mut control, false, false, "I", 30);
    assert_eq!(b2, c2);
    assert_eq!(b2, "H I ");
    assert_eq!(b.last_event_ms(), 30);
}
