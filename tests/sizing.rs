use bitflip_detector::sizing::{start_sizing, MemoryReading, SizingPolicy, SizingState, SizingStep};

const MB: u64 = 1_000_000;

/// Drives the sizing steps over a sequence of readings; returns the totals
/// after each step, the rejections, and the final size.
fn drive(available: u64, baseline: u64, readings: &[MemoryReading]) -> (Vec<u64>, Vec<bool>, Option<u64>) {
    let policy = SizingPolicy::standard();
    let mut state = SizingState::start(available, baseline);
    let mut totals = Vec::new();
    let mut rejections = Vec::new();
    for r in readings {
        match state.step(&policy, *r) {
            SizingStep::Probe { rejected, next } => {
                totals.push(next.total_size);
                rejections.push(rejected);
                state = next;
            }
            SizingStep::Done { rejected, total } => {
                totals.push(total);
                rejections.push(rejected);
                return (totals, rejections, Some(total));
            }
        }
    }
    (totals, rejections, None)
}

#[test]
fn calm_system_converges() {
    let calm = vec![MemoryReading { available: 800 * MB, used_swap: 0 }; 64];
    let (totals, rejections, total) = drive(1000 * MB, 0, &calm);
    assert_eq!(total, Some(937_500_000));
    assert_eq!(totals, vec![750 * MB, 875 * MB, 937_500_000, 937_500_000]);
    assert!(rejections.iter().all(|r| !r));
    // ceil(log2(1000 MB / 50 MB)) + 1 = 6
    assert!(totals.len() <= 6);
    assert!(totals.windows(2).all(|w| w[0] <= w[1]));
    assert!(totals.iter().all(|t| *t <= 1000 * MB));
}

#[test]
fn small_memory_stops_after_first_probe() {
    let calm = vec![MemoryReading { available: 90 * MB, used_swap: 0 }; 64];
    let (totals, _, total) = drive(60 * MB, 0, &calm);
    assert_eq!(total, Some(30 * MB));
    assert_eq!(totals.len(), 1);
}

#[test]
fn swap_jump_rejects_probe() {
    let readings = vec![
        MemoryReading { available: 800 * MB, used_swap: 5 * MB },
        MemoryReading { available: 800 * MB, used_swap: 25 * MB },
        MemoryReading { available: 800 * MB, used_swap: 5 * MB },
        MemoryReading { available: 800 * MB, used_swap: 5 * MB },
    ];
    let (totals, rejections, total) = drive(1000 * MB, 5 * MB, &readings);
    assert_eq!(rejections, vec![false, true, false, false]);
    assert_eq!(totals, vec![750 * MB, 625 * MB, 687_500_000, 687_500_000]);
    // 500 MB + 125 MB + 62.5 MB: the 250 MB probe is left out.
    assert_eq!(total, Some(687_500_000));
}

#[test]
fn lasting_swap_growth_rejects_every_later_probe() {
    let mut readings = vec![MemoryReading { available: 800 * MB, used_swap: 0 }];
    readings.extend(vec![MemoryReading { available: 800 * MB, used_swap: 11 * MB }; 10]);
    let (_, rejections, total) = drive(1000 * MB, 0, &readings);
    assert_eq!(rejections, vec![false, true, true, true]);
    assert_eq!(total, Some(500 * MB));
}

#[test]
fn swap_growth_at_threshold_is_accepted() {
    let policy = SizingPolicy::standard();
    let state = SizingState::start(1000 * MB, 0);
    let step = state.step(&policy, MemoryReading { available: 800 * MB, used_swap: 10 * MB });
    assert!(matches!(step, SizingStep::Probe { rejected: false, .. }));
}

#[test]
fn low_available_memory_rejects_probe() {
    let policy = SizingPolicy::standard();
    let state = SizingState::start(1000 * MB, 0);
    let step = state.step(&policy, MemoryReading { available: 50 * MB, used_swap: 0 });
    assert_eq!(
        step,
        SizingStep::Probe {
            rejected: true,
            next: SizingState { total_size: 250 * MB, increment: 250 * MB, swap_baseline: 0 }
        }
    );
}

#[test]
fn swap_below_baseline_is_not_growth() {
    let policy = SizingPolicy::standard();
    let state = SizingState::start(1000 * MB, 40 * MB);
    let step = state.step(&policy, MemoryReading { available: 800 * MB, used_swap: 0 });
    assert!(matches!(step, SizingStep::Probe { rejected: false, .. }));
}

#[test]
fn start_takes_half() {
    let s = SizingState::start(1001, 7);
    assert_eq!(s, SizingState { total_size: 500, increment: 500, swap_baseline: 7 });
}

#[test]
fn start_sizing_needs_a_reading() {
    assert_eq!(start_sizing(0, 3), None);
    assert_eq!(
        start_sizing(1000 * MB, 3),
        Some(SizingState { total_size: 500 * MB, increment: 500 * MB, swap_baseline: 3 })
    );
    assert_eq!(
        start_sizing(1, 0),
        Some(SizingState { total_size: 0, increment: 0, swap_baseline: 0 })
    );
}
