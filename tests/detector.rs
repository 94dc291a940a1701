use bitflip_detector::detector::Detector;

#[test]
fn new_buffer_is_intact() {
    for capacity in [0usize, 1, 7, 4096] {
        for default in [0u8, 42, 255] {
            let d = Detector::new(default, capacity);
            assert!(d.is_intact());
            assert_eq!(d.capacity(), capacity);
            assert_eq!(d.find_index_of_changed_element(), None);
        }
    }
}

#[test]
fn reset_restores_intact() {
    let mut d = Detector::new(7, 100);
    d.write(9);
    assert!(!d.is_intact());
    d.reset();
    assert!(d.is_intact());
    assert_eq!(d.get(99), Some(7));
}

#[test]
fn write_other_value_is_detected() {
    let mut d = Detector::new(0, 64);
    d.write(1);
    assert!(!d.is_intact());
    let i = d.find_index_of_changed_element().expect("a changed byte");
    assert!(i < 64);
    assert_eq!(d.get(i), Some(1));
}

#[test]
fn write_default_value_keeps_intact() {
    let mut d = Detector::new(3, 10);
    d.write(3);
    assert!(d.is_intact());
}

#[test]
fn reset_twice_is_intact_both_times() {
    let mut d = Detector::new(0, 256);
    d.inject_fault(17, 0x80);
    d.reset();
    assert!(d.is_intact());
    d.reset();
    assert!(d.is_intact());
}

#[test]
fn single_fault_scenario() {
    let mut d = Detector::new(0, 1024);
    d.inject_fault(500, 1);
    assert_eq!(d.find_index_of_changed_element(), Some(500));
    assert!(!d.is_intact());
    d.reset();
    assert!(d.is_intact());
}

#[test]
fn two_faults_give_one_of_them() {
    let mut d = Detector::new(0, 1024);
    d.inject_fault(3, 1);
    d.inject_fault(900, 4);
    assert!(!d.is_intact());
    let i = d.find_index_of_changed_element().expect("a changed byte");
    assert!(i == 3 || i == 900);
}

#[test]
fn get_is_bounds_checked() {
    let d = Detector::new(5, 3);
    assert_eq!(d.get(0), Some(5));
    assert_eq!(d.get(2), Some(5));
    assert_eq!(d.get(3), None);
    assert_eq!(d.get(usize::MAX), None);
    let empty = Detector::new(5, 0);
    assert_eq!(empty.get(0), None);
}

#[test]
fn fault_out_of_range_changes_nothing() {
    let mut d = Detector::new(0, 4);
    d.inject_fault(4, 1);
    assert!(d.is_intact());
}
