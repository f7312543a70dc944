use bitmeter::bitlog::BitLog;

fn zero_cursor() -> BitLog<f64, 4> {
    BitLog::from_parts([0.0, 1.0, 2.0, 3.0], 0).unwrap()
}

fn mid_cursor() -> BitLog<f64, 4> {
    BitLog::from_parts([2.0, 3.0, 0.0, 1.0], 2).unwrap()
}

#[test]
fn bitlog_lookback_i_zero() {
    let log = zero_cursor();

    assert_eq!(log.get_from_end(0), 3.0);
    assert_eq!(log.get_from_end(1), 2.0);
    assert_eq!(log.get_from_end(2), 1.0);
    assert_eq!(log.get_from_end(3), 0.0);
}

#[test]
fn bitlog_lookback_i_nonzero() {
    let log = mid_cursor();

    assert_eq!(log.get_from_end(0), 3.0);
    assert_eq!(log.get_from_end(1), 2.0);
    assert_eq!(log.get_from_end(2), 1.0);
    assert_eq!(log.get_from_end(3), 0.0);
}

#[test]
fn bitlog_to_vec() {
    let log = mid_cursor();

    assert_eq!(log.to_vec(), vec![0.0, 1.0, 2.0, 3.0]);
}

#[test]
fn to_vec_with_cursor_at_start() {
    assert_eq!(zero_cursor().to_vec(), vec![0.0, 1.0, 2.0, 3.0]);
}

#[test]
fn four_pushes_then_wrap() {
    let mut log: BitLog<f64, 4> = BitLog::new(0.0);
    for sample in [0.0, 1.0, 2.0, 3.0] {
        log.track(sample);
    }
    assert_eq!(log.get_from_end(0), 3.0);
    assert_eq!(log.get_from_end(3), 0.0);
    assert_eq!(log.to_vec(), vec![0.0, 1.0, 2.0, 3.0]);
    assert_eq!(log.diff(3, |recent, earlier| recent - earlier), 3.0);

    log.track(4.0);
    assert_eq!(log.get_from_end(0), 4.0);
    assert_eq!(log.get_from_end(3), 1.0);
    assert_eq!(log.to_vec(), vec![1.0, 2.0, 3.0, 4.0]);
}

#[test]
fn new_log_is_all_fill() {
    let log: BitLog<f64, 5> = BitLog::new(0.0);
    assert_eq!(log.to_vec(), vec![0.0; 5]);
    let other: BitLog<i32, 3> = BitLog::new(-7);
    assert_eq!(other.to_vec(), vec![-7, -7, -7]);
}

#[test]
fn warm_up_counts_from_fill() {
    let mut log: BitLog<f64, 4> = BitLog::new(0.0);
    log.track(10.0);
    log.track(12.0);
    assert_eq!(log.to_vec(), vec![0.0, 0.0, 10.0, 12.0]);
    assert_eq!(log.diff(1, |recent, earlier| recent - earlier), 2.0);
    assert_eq!(log.diff(3, |recent, earlier| recent - earlier), 12.0);
}

#[test]
fn track_drops_oldest_and_appends() {
    let mut log = mid_cursor();
    log.track(9.0);
    assert_eq!(log.to_vec(), vec![1.0, 2.0, 3.0, 9.0]);
    log.track(8.0);
    assert_eq!(log.to_vec(), vec![2.0, 3.0, 9.0, 8.0]);
}

#[test]
fn wraparound_keeps_last_samples() {
    for pushes in 3..20_usize {
        let mut log: BitLog<usize, 3> = BitLog::new(0);
        for sample in 1..=pushes {
            log.track(sample * 10);
        }
        assert_eq!(log.get_from_end(0), pushes * 10);
        assert_eq!(log.get_from_end(2), (pushes - 2) * 10);
        assert_eq!(
            log.to_vec(),
            vec![(pushes - 2) * 10, (pushes - 1) * 10, pushes * 10]
        );
    }
}

#[test]
fn wraparound_from_any_cursor() {
    for cursor in 0..4 {
        let mut log: BitLog<u32, 4> = BitLog::from_parts([91, 92, 93, 94], cursor).unwrap();
        for sample in [1, 2, 3, 4, 5, 6] {
            log.track(sample);
        }
        assert_eq!(log.get_from_end(0), 6);
        assert_eq!(log.get_from_end(3), 3);
    }
}

#[test]
fn snapshot_ends_with_most_recent() {
    let mut log: BitLog<f64, 6> = BitLog::new(0.0);
    for tick in 0..15 {
        log.track(tick as f64 * 1.5);
        let snapshot = log.to_vec();
        assert_eq!(snapshot.len(), 6);
        assert_eq!(snapshot[5], log.get_from_end(0));
    }
}

#[test]
fn diff_spans_first_to_last_sample() {
    let samples = [2.0, 3.5, 7.0, 11.0, 20.0];
    for k in 0..samples.len() {
        let mut log: BitLog<f64, 5> = BitLog::from_parts([9.0, 9.0, 9.0, 9.0, 9.0], 3).unwrap();
        for sample in &samples[..=k] {
            log.track(*sample);
        }
        assert_eq!(
            log.diff(k, |recent, earlier| recent - earlier),
            samples[k] - samples[0]
        );
    }
}

#[test]
fn diff_hands_recent_then_earlier() {
    let log = mid_cursor();
    let mut seen = (f64::NAN, f64::NAN);
    let pair = std::cell::Cell::new(seen);
    log.diff(2, |recent, earlier| {
        pair.set((recent, earlier));
        0.0
    });
    seen = pair.get();
    assert_eq!(seen, (3.0, 1.0));
}

#[test]
fn from_parts_rejects_cursor_outside_ring() {
    assert!(BitLog::<f64, 4>::from_parts([0.0; 4], 4).is_none());
    assert!(BitLog::<f64, 4>::from_parts([0.0; 4], 17).is_none());
    assert!(BitLog::<f64, 4>::from_parts([0.0; 4], 3).is_some());
    assert!(BitLog::<f64, 0>::from_parts([], 0).is_some());
    assert!(BitLog::<f64, 0>::from_parts([], 1).is_none());
}

#[test]
fn single_slot_log_holds_last_sample() {
    let mut log: BitLog<f64, 1> = BitLog::new(0.0);
    log.track(4.0);
    log.track(6.0);
    assert_eq!(log.get_from_end(0), 6.0);
    assert_eq!(log.to_vec(), vec![6.0]);
    assert_eq!(log.diff(0, |recent, earlier| recent - earlier), 0.0);
}

#[test]
fn empty_log_has_empty_snapshot() {
    let log: BitLog<f64, 0> = BitLog::new(0.0);
    assert_eq!(log.to_vec(), Vec::<f64>::new());
}
