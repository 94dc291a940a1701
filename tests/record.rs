use bitflip_detector::detection::{LoopState, SessionSettings};
use bitflip_detector::detector::Detector;
use bitflip_detector::record::{session_start_line, DetectionRecord};

fn settings() -> SessionSettings {
    SessionSettings { delay_ms: 30000, latitude: "59.33".to_string(), longitude: "18.06".to_string() }
}

#[test]
fn session_start_line_format() {
    let line = session_start_line(1700000000000, 30000, "59.33", "18.06");
    assert_eq!(line, "1700000000000,30000,,,59.33,18.06");
}

#[test]
fn session_start_line_zeroes() {
    assert_eq!(session_start_line(0, 0, "", ""), "0,0,,,,");
}

#[test]
fn detection_line_format() {
    let record = DetectionRecord {
        session_start_ms: 1700000000000,
        delay_ms: 30000,
        checks_since_last_flip: 42,
        ambiguous: false,
        event_time_ms: 1700000300000,
        latitude: "59.33".to_string(),
        longitude: "18.06".to_string(),
    };
    assert_eq!(record.to_line(), "1700000000000,30000,42,0,1700000300000,59.33,18.06");
}

#[test]
fn detection_line_ambiguous_flag() {
    let record = DetectionRecord {
        session_start_ms: 1,
        delay_ms: 0,
        checks_since_last_flip: 10,
        ambiguous: true,
        event_time_ms: u64::MAX,
        latitude: "a".to_string(),
        longitude: "b".to_string(),
    };
    assert_eq!(record.to_line(), "1,0,10,1,18446744073709551615,a,b");
}

#[test]
fn located_flip_is_not_ambiguous() {
    let mut det = Detector::new(0, 1024);
    let mut state = LoopState::new();
    state.arm(&mut det, 1700000000000);
    assert!(state.check(&det));
    det.inject_fault(500, 1);
    assert!(!state.check(&det));
    let found = state.detect(&det, &settings(), 1700000300000);
    assert_eq!(found.changed, Some((500, 1)));
    assert!(!found.record.ambiguous);
    assert_eq!(found.record.to_line(), "1700000000000,30000,2,0,1700000300000,59.33,18.06");
}

#[test]
fn self_reverting_flip_is_ambiguous() {
    let mut det = Detector::new(0, 1024);
    let mut state = LoopState::new();
    state.arm(&mut det, 1700000000000);
    det.inject_fault(12, 4);
    assert!(!state.check(&det));
    det.inject_fault(12, 0);
    let found = state.detect(&det, &settings(), 1700000300000);
    assert_eq!(found.changed, None);
    assert!(found.record.ambiguous);
    let line = found.record.to_line();
    assert_eq!(line.split(',').count(), 7);
    assert_eq!(line.split(',').nth(3), Some("1"));
    assert_eq!(line, "1700000000000,30000,1,1,1700000300000,59.33,18.06");
}

#[test]
fn arming_resets_buffer_and_counter() {
    let mut det = Detector::new(0, 16);
    let mut state = LoopState::new();
    state.arm(&mut det, 5);
    assert!(state.check(&det));
    assert!(state.check(&det));
    assert_eq!(state.checks_since_last_flip, 2);
    assert_eq!(state.total_checks, 2);
    det.inject_fault(0, 1);
    state.arm(&mut det, 9);
    assert!(det.is_intact());
    assert_eq!(state, LoopState { session_start_ms: 9, checks_since_last_flip: 0, total_checks: 2 });
}

#[test]
fn counters_saturate() {
    let det = Detector::new(0, 1);
    let mut state = LoopState { session_start_ms: 0, checks_since_last_flip: u64::MAX, total_checks: u64::MAX };
    assert!(state.check(&det));
    assert_eq!(state.checks_since_last_flip, u64::MAX);
    assert_eq!(state.total_checks, u64::MAX);
}
