//! Per-device session: what one raw key event does to a device's phrase,
//! given the plain answers the compiled layout supplies, and the laws that
//! hold of whole runs of events.
//!
//! A device worker owns one layout state and one [`PhraseBuffer`]; per event
//! it decides with [`crate::translate::classify`], updates the layout state
//! accordingly, and on a fresh press reads the modifier flags and symbol
//! name back and folds them in with [`emit_display`].  The spec model here
//! describes that round for every event, so the laws quantify over event
//! runs.

use vstd::prelude::*;

use crate::phrase::{accept_text, sep, PhraseBuffer, IDLE_RESET_MS};
use crate::translate::{
    classify_spec, modifier_prefix, prefix_spec, KeyAction, KEY_STATE_PRESS, KEY_STATE_RELEASE,
    KEY_STATE_REPEAT,
};

verus! {

/// One raw key event together with the layout facts it resolves to: whether
/// its keycode is repeat-eligible, and — read after the layout-state update —
/// the modifier flags and symbol name the layout yields for it.
pub struct EventFacts {
    /// The raw event value: release, press or repeat.
    pub value: i32,
    /// Whether the layout declares the event's keycode repeat-eligible.
    pub repeats: bool,
    /// Whether Control is effective after the update.
    pub ctrl: bool,
    /// Whether Alt is effective after the update.
    pub alt: bool,
    /// The display name of the symbol the keycode resolves to.
    pub name: Seq<char>,
    /// The event timestamp in milliseconds on the device's monotonic clock.
    pub ts_ms: u64,
}

/// Whether an event emits output: only a fresh press does.
pub open spec fn emits(ev: EventFacts) -> bool {
    ev.value == KEY_STATE_PRESS
}

/// The phrase text and last-accept time after one event: a press folds its
/// prefixed name in, everything else leaves the phrase untouched.
pub open spec fn step_state(text: Seq<char>, last_ms: u64, ev: EventFacts) -> (Seq<char>, u64) {
    if emits(ev) {
        (
            accept_text(
                text,
                prefix_spec(ev.ctrl, ev.alt) + ev.name,
                ev.ctrl || ev.alt,
                ev.ts_ms - last_ms > IDLE_RESET_MS,
            ),
            ev.ts_ms,
        )
    } else {
        (text, last_ms)
    }
}

/// The phrase state after a run of events, folded in order.
pub open spec fn run_state(text: Seq<char>, last_ms: u64, evs: Seq<EventFacts>) -> (Seq<char>, u64)
    decreases evs.len(),
{
    if evs.len() == 0 {
        (text, last_ms)
    } else {
        let st = step_state(text, last_ms, evs[0]);
        run_state(st.0, st.1, evs.drop_first())
    }
}

/// The names of the presses of a run, in order, each followed by the
/// separator.
pub open spec fn press_concat(evs: Seq<EventFacts>) -> Seq<char>
    decreases evs.len(),
{
    if evs.len() == 0 {
        Seq::<char>::empty()
    } else if emits(evs[0]) {
        evs[0].name + sep() + press_concat(evs.drop_first())
    } else {
        press_concat(evs.drop_first())
    }
}

/// Whether a run starting from last-accept time `last_ms` carries no
/// modifier chord and no idle gap: every press comes unmodified and within
/// the idle threshold of the previous accepted press.
pub open spec fn unbroken_from(last_ms: u64, evs: Seq<EventFacts>) -> bool
    decreases evs.len(),
{
    evs.len() == 0 || {
        let e = evs[0];
        if emits(e) {
            !e.ctrl && !e.alt && e.ts_ms - last_ms <= IDLE_RESET_MS && unbroken_from(
                e.ts_ms,
                evs.drop_first(),
            )
        } else {
            unbroken_from(last_ms, evs.drop_first())
        }
    }
}

/// LAW: over any run of press and release events in which no press carries a
/// modifier chord and no press follows an idle gap, the phrase ends as the
/// prior text with the presses' names appended in event order, each followed
/// by a single separator.
pub proof fn lemma_run_concatenation(text: Seq<char>, last_ms: u64, evs: Seq<EventFacts>)
    requires
        unbroken_from(last_ms, evs),
        forall|i: int|
            0 <= i < evs.len() ==> (#[trigger] evs[i].value) == KEY_STATE_PRESS || evs[i].value
                == KEY_STATE_RELEASE,
    ensures
        run_state(text, last_ms, evs).0 == text + press_concat(evs),
    decreases evs.len(),
{
    if evs.len() == 0 {
        assert(text + press_concat(evs) =~= text);
    } else {
        let e = evs[0];
        let rest = evs.drop_first();
        assert(forall|i: int| 0 <= i < rest.len() ==> rest[i] == evs[i + 1]);
        let st = step_state(text, last_ms, e);
        if emits(e) {
            assert(prefix_spec(e.ctrl, e.alt) + e.name =~= e.name);
            assert(st.0 =~= text + e.name + sep());
            lemma_run_concatenation(st.0, e.ts_ms, rest);
            assert((text + e.name + sep()) + press_concat(rest) =~= text + (e.name + sep()
                + press_concat(rest)));
        } else {
            lemma_run_concatenation(text, last_ms, rest);
        }
    }
}

/// LAW: a press that follows an idle gap longer than the threshold yields a
/// phrase holding only that press's own prefixed text, whatever stood in the
/// buffer before.
pub proof fn lemma_idle_gap_resets(text: Seq<char>, last_ms: u64, ev: EventFacts)
    requires
        emits(ev),
        ev.ts_ms - last_ms > IDLE_RESET_MS,
    ensures
        step_state(text, last_ms, ev).0 == prefix_spec(ev.ctrl, ev.alt) + ev.name + sep(),
{
    assert(step_state(text, last_ms, ev).0 =~= prefix_spec(ev.ctrl, ev.alt) + ev.name + sep());
}

/// LAW: a press with Control or Alt active yields a phrase holding only that
/// press's own prefixed text, whatever stood in the buffer before and
/// whatever the gap was.
pub proof fn lemma_modifier_resets(text: Seq<char>, last_ms: u64, ev: EventFacts)
    requires
        emits(ev),
        ev.ctrl || ev.alt,
    ensures
        step_state(text, last_ms, ev).0 == prefix_spec(ev.ctrl, ev.alt) + ev.name + sep(),
{
    assert(step_state(text, last_ms, ev).0 =~= prefix_spec(ev.ctrl, ev.alt) + ev.name + sep());
}

/// LAW: a release never produces output and never changes the phrase state.
pub proof fn lemma_release_inert(text: Seq<char>, last_ms: u64, ev: EventFacts)
    requires
        ev.value == KEY_STATE_RELEASE,
    ensures
        !emits(ev),
        step_state(text, last_ms, ev) == (text, last_ms),
{
}

/// LAW: a repeat of a keycode the layout marks non-repeating is dropped
/// whole: the translator orders no layout-state update, and the event
/// produces no output and leaves the phrase state untouched.
pub proof fn lemma_repeat_suppressed(text: Seq<char>, last_ms: u64, ev: EventFacts)
    requires
        ev.value == KEY_STATE_REPEAT,
        !ev.repeats,
    ensures
        classify_spec(ev.value, ev.repeats) == KeyAction::Drop,
        !emits(ev),
        step_state(text, last_ms, ev) == (text, last_ms),
{
}

/// Compose and fold in the display text of one accepted press: the modifier
/// prefix for the flags read after the layout-state update, then the symbol
/// name, applied to the device's phrase.  Returns the new display string,
/// the full buffer contents.
pub fn emit_display(
    buffer: &mut PhraseBuffer,
    ctrl: bool,
    alt: bool,
    key_name: &str,
    ts_ms: u64,
) -> (out: String)
    requires
        old(buffer).last_ms() <= ts_ms,
    ensures
        out@ == accept_text(
            old(buffer).text(),
            prefix_spec(ctrl, alt) + key_name@,
            ctrl || alt,
            ts_ms - old(buffer).last_ms() > IDLE_RESET_MS,
        ),
        final(buffer).text() == out@,
        final(buffer).last_ms() == ts_ms,
        forall|repeats: bool|
            step_state(
                old(buffer).text(),
                old(buffer).last_ms(),
                (EventFacts {
                    value: KEY_STATE_PRESS,
                    repeats,
                    ctrl,
                    alt,
                    name: key_name@,
                    ts_ms,
                }),
            ) == (out@, ts_ms),
{
    let prefix = modifier_prefix(ctrl, alt);
    buffer.apply(prefix.as_str(), key_name, ctrl || alt, ts_ms)
}

} // verus!
