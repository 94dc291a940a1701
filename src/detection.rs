use crate::detector::{change_found, Detector};
use crate::record::DetectionRecord;
use vstd::prelude::*;

verus! {

/// What every record of a run carries besides its counters and times.
pub struct SessionSettings {
    pub delay_ms: u64,
    pub latitude: String,
    pub longitude: String,
}

/// The counters and timestamps of the detection loop, passed from one step to
/// the next.
#[derive(Clone, Copy, Debug, PartialEq, Eq)]
pub struct LoopState {
    pub session_start_ms: u64,
    pub checks_since_last_flip: u64,
    pub total_checks: u64,
}

/// A counter one step further, held at its largest value once it gets there.
pub open spec fn bumped(n: u64) -> u64 {
    if n < u64::MAX {
        (n + 1) as u64
    } else {
        n
    }
}

/// The outcome of a failed check: the record to log, and the byte found
/// changed on the second scan with its current value, if one was found.
pub struct Detection {
    pub record: DetectionRecord,
    pub changed: Option<(usize, u8)>,
}

impl LoopState {
    /// The state before the first cycle: nothing checked yet.
    pub fn new() -> (r: Self)
        ensures
            r == (LoopState { session_start_ms: 0, checks_since_last_flip: 0, total_checks: 0 }),
    {
        LoopState { session_start_ms: 0, checks_since_last_flip: 0, total_checks: 0 }
    }

    /// Arms a cycle: resets the buffer to its default value, zeroes the checks
    /// since the last flip and records `now_ms` as the session start.
    pub fn arm(&mut self, detector: &mut Detector, now_ms: u64)
        requires
            old(detector).wf(),
        ensures
            final(detector).wf(),
            final(detector).default_value() == old(detector).default_value(),
            final(detector).spec_capacity() == old(detector).spec_capacity(),
            final(detector).contents() == old(detector).spec_reset(),
            final(detector).spec_intact(),
            *final(self) == (LoopState {
                session_start_ms: now_ms,
                checks_since_last_flip: 0,
                total_checks: old(self).total_checks,
            }),
    {
        detector.reset();
        self.session_start_ms = now_ms;
        self.checks_since_last_flip = 0;
    }

    /// Checks the buffer once, counting the check whatever its outcome; `true`
    /// when the buffer is intact and the loop goes back to waiting.
    pub fn check(&mut self, detector: &Detector) -> (r: bool)
        ensures
            r == detector.spec_intact(),
            *final(self) == (LoopState {
                session_start_ms: old(self).session_start_ms,
                checks_since_last_flip: bumped(old(self).checks_since_last_flip),
                total_checks: bumped(old(self).total_checks),
            }),
    {
        let r = detector.is_intact();
        self.checks_since_last_flip = self.checks_since_last_flip.saturating_add(1);
        self.total_checks = self.total_checks.saturating_add(1);
        r
    }

    /// Builds the record of a detection at `event_time_ms`: the buffer is scanned
    /// once more; when no changed byte is found, the flip reverted before it
    /// could be located and the record says so.
    pub fn detect(&self, detector: &Detector, settings: &SessionSettings, event_time_ms: u64) -> (r:
        Detection)
        requires
            detector.wf(),
        ensures
            r.record == (DetectionRecord {
                session_start_ms: self.session_start_ms,
                delay_ms: settings.delay_ms,
                checks_since_last_flip: self.checks_since_last_flip,
                ambiguous: r.changed.is_none(),
                event_time_ms,
                latitude: settings.latitude,
                longitude: settings.longitude,
            }),
            change_found(
                match r.changed {
                    Some(c) => Some(c.0),
                    None => None,
                },
                detector.contents(),
                detector.default_value(),
            ),
            r.changed matches Some(c) ==> c.1 == detector.contents()[c.0 as int],
    {
        let changed = match detector.find_index_of_changed_element() {
            Some(index) => match detector.get(index) {
                Some(value) => Some((index, value)),
                None => None,
            },
            None => None,
        };
        let record = DetectionRecord {
            session_start_ms: self.session_start_ms,
            delay_ms: settings.delay_ms,
            checks_since_last_flip: self.checks_since_last_flip,
            ambiguous: changed.is_none(),
            event_time_ms,
            latitude: settings.latitude.clone(),
            longitude: settings.longitude.clone(),
        };
        Detection { record, changed }
    }
}

} // verus!
