use doom_fire::drift_source::DriftSource;
use doom_fire::heat_grid::DRIFTS;

#[test]
fn drifts_stay_below_four() {
    assert_eq!(DRIFTS, 4);
    let mut source = DriftSource::seeded(1);
    for _ in 0..10_000 {
        assert!(source.next_drift() < DRIFTS);
    }
}

#[test]
fn every_drift_occurs() {
    let mut source = DriftSource::seeded(99);
    let mut counts = [0u32; 4];
    for _ in 0..4000 {
        counts[source.next_drift() as usize] += 1;
    }
    for count in counts {
        assert!(count > 800 && count < 1200);
    }
}

#[test]
fn the_seed_fixes_the_stream() {
    let mut first = DriftSource::seeded(42);
    let mut second = DriftSource::seeded(42);
    let drawn: Vec<u8> = (0..24).map(|_| first.next_drift()).collect();
    let again: Vec<u8> = (0..24).map(|_| second.next_drift()).collect();
    assert_eq!(drawn, again);
    assert_eq!(
        drawn,
        vec![1, 2, 2, 1, 3, 3, 3, 1, 3, 0, 1, 0, 1, 0, 0, 0, 0, 0, 3, 1, 3, 2, 2, 2]
    );
}

#[test]
fn seeds_differ_in_their_streams() {
    let mut seven = DriftSource::seeded(7);
    let mut zero = DriftSource::seeded(0);
    let of_seven: Vec<u8> = (0..12).map(|_| seven.next_drift()).collect();
    let of_zero: Vec<u8> = (0..12).map(|_| zero.next_drift()).collect();
    assert_eq!(of_seven, vec![1, 0, 1, 3, 3, 1, 3, 2, 1, 2, 1, 0]);
    assert_eq!(of_zero, vec![3, 2, 3, 0, 3, 1, 0, 1, 0, 3, 3, 0]);
}
