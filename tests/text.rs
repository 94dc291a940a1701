use bitflip_detector::text::mem_size;

fn shown(bytes: u64) -> String {
    let unit = mem_size(bytes).expect("a unit");
    let mut value: f32 = bytes as f32;
    for _ in 0..unit.divisions {
        value = value / 1024.0;
    }
    value.to_string() + unit.suffix.as_str()
}

#[test]
fn small_counts_stay_in_bytes() {
    for n in [0u64, 1, 1000, 1024] {
        let u = mem_size(n).expect("a unit");
        assert_eq!(u.divisions, 0);
        assert_eq!(u.suffix, " B");
        assert_eq!(u.rounded, n as u128);
    }
}

#[test]
fn larger_units() {
    let u = mem_size(1536).expect("a unit");
    assert_eq!((u.divisions, u.suffix.as_str()), (1, " KiB"));
    let u = mem_size(1_048_576).expect("a unit");
    assert_eq!((u.divisions, u.suffix.as_str()), (1, " KiB"));
    let u = mem_size(1_048_577).expect("a unit");
    assert_eq!((u.divisions, u.suffix.as_str()), (2, " MiB"));
    let u = mem_size(5 * 1024 * 1024 * 1024).expect("a unit");
    assert_eq!((u.divisions, u.suffix.as_str()), (3, " GiB"));
    let u = mem_size(1 << 50).expect("a unit");
    assert_eq!((u.divisions, u.suffix.as_str()), (4, " TiB"));
}

#[test]
fn rounding_to_float_precision() {
    assert_eq!(mem_size((1 << 24) + 1).unwrap().rounded, 1 << 24);
    assert_eq!(mem_size((1 << 24) + 3).unwrap().rounded, (1 << 24) + 4);
    // rounds down to exactly 1 GiB, so it is shown as 1024 MiB
    let u = mem_size((1 << 30) + 1).unwrap();
    assert_eq!(u.rounded, 1 << 30);
    assert_eq!((u.divisions, u.suffix.as_str()), (2, " MiB"));
    assert_eq!(u.rounded, ((1u64 << 30) + 1) as f32 as u128);
    assert_eq!(mem_size(u64::MAX - 5).map(|u| u.rounded), None);
}

#[test]
fn beyond_largest_unit() {
    assert!(mem_size((1 << 50) + (1 << 26)).is_some());
    assert!(mem_size((1 << 50) + 3 * (1 << 26)).is_none());
    assert!(mem_size(u64::MAX).is_none());
}

#[test]
fn shown_as_float() {
    assert_eq!(shown(1536), "1.5 KiB");
    assert_eq!(shown(1_048_576), "1024 KiB");
    assert_eq!(shown(5368709120), "5 GiB");
    assert_eq!(shown(1000), "1000 B");
}
