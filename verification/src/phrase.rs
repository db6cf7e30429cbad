//! Phrase accumulator: folds accepted key presses into a rolling display
//! string, resetting on modifier chords and on idle gaps.

use vstd::prelude::*;

verus! {

/// Idle threshold: a gap of more than this many milliseconds between two
/// accepted key presses clears the phrase before the new text is appended.
pub const IDLE_RESET_MS: u64 = 2000;

/// The single-space separator that follows every appended entry.
pub open spec fn sep() -> Seq<char> {
    seq![' ']
}

/// What one accepted key press does to the accumulated phrase text:
/// a modifier chord or an exceeded idle gap discards the prior text,
/// and the entry with its trailing separator is appended.
pub open spec fn accept_text(
    cur: Seq<char>,
    entry: Seq<char>,
    modified: bool,
    gap_exceeded: bool,
) -> Seq<char> {
    if modified || gap_exceeded {
        entry + sep()
    } else {
        cur + entry + sep()
    }
}

/// Rolling phrase state owned by one device worker: the accumulated text
/// (always ending in the separator once non-empty) and the timestamp of the
/// last accepted key press, in milliseconds on that device's monotonic clock.
pub struct PhraseBuffer {
    accumulated: String,
    last_event_ms: u64,
}

impl PhraseBuffer {
    /// The accumulated display text.
    pub closed spec fn text(&self) -> Seq<char> {
        self.accumulated@
    }

    /// The timestamp of the last accepted key press (or of construction).
    pub closed spec fn last_ms(&self) -> u64 {
        self.last_event_ms
    }

    /// A fresh buffer: empty text, clock started at `start_ms`.
    pub fn new(start_ms: u64) -> (b: PhraseBuffer)
        ensures
            b.text() == Seq::<char>::empty(),
            b.last_ms() == start_ms,
    {
        PhraseBuffer { accumulated: String::new(), last_event_ms: start_ms }
    }

    /// The current display text, as last returned by `apply`.
    pub fn display(&self) -> (s: String)
        ensures
            s@ == self.text(),
    {
        self.accumulated.clone()
    }

    /// The timestamp of the last accepted key press, in milliseconds.
    pub fn last_event_ms(&self) -> (t: u64)
        ensures
            t == self.last_ms(),
    {
        self.last_event_ms
    }

    /// Fold one accepted key press into the phrase and return the new
    /// display string: the full buffer contents, trailing separator included.
    pub fn apply(&mut self, prefix: &str, key_name: &str, modified: bool, ts_ms: u64) -> (out:
        String)
        requires
            old(self).last_ms() <= ts_ms,
        ensures
            out@ == accept_text(
                old(self).text(),
                prefix@ + key_name@,
                modified,
                ts_ms - old(self).last_ms() > IDLE_RESET_MS,
            ),
            final(self).text() == out@,
            final(self).last_ms() == ts_ms,
    {
        let gap_exceeded: bool = ts_ms - self.last_event_ms > IDLE_RESET_MS;
        if modified || gap_exceeded {
            self.accumulated = String::new();
        }
        self.accumulated.append(prefix);
        self.accumulated.append(key_name);
        self.accumulated.append(" ");
        self.last_event_ms = ts_ms;
        let out = self.accumulated.clone();
        proof {
            reveal_strlit(" ");
            assert(" "@ =~= sep());
            assert(out@ =~= accept_text(
                old(self).text(),
                prefix@ + key_name@,
                modified,
                ts_ms - old(self).last_ms() > IDLE_RESET_MS,
            ));
        }
        out
    }
}

} // verus!
