use udp_probe::{start, zero_datagram, Probe, ProbeError, Report, Window, REPORT_INTERVAL_NANOS};

#[test]
fn echoes_four_bytes_and_counts_one_round_trip() {
    let (mut probe, mut buffer, send_now) = start(false, 4, 0);
    assert!(!send_now);
    buffer.copy_from_slice(&[0xFF, 0xFF, 0xFF, 0xFF]);
    let reply = probe.echo(&buffer, 4).unwrap();
    assert_eq!(reply, &[0xFF, 0xFF, 0xFF, 0xFF]);
    assert_eq!(probe.record_cycle(10, 20), Ok(None));
    assert_eq!(probe.window.count, 1);
}

#[test]
fn short_datagram_aborts_without_echo() {
    let (probe, buffer, _) = start(false, 10, 0);
    assert_eq!(probe.echo(&buffer, 8), Err(ProbeError::SizeMismatch(8)));
}

#[test]
fn oversized_report_of_size_is_a_mismatch() {
    let (probe, buffer, _) = start(false, 3, 0);
    assert_eq!(probe.echo(&buffer, 4), Err(ProbeError::SizeMismatch(4)));
}

#[test]
fn send_first_gives_zero_filled_datagram() {
    let (probe, buffer, send_now) = start(true, 5, 7);
    assert!(send_now);
    assert_eq!(buffer, vec![0u8; 5]);
    assert_eq!(probe.last_arrival, 7);
    assert_eq!(probe.window.count, 0);
    assert_eq!(probe.window.opened_at, 7);
}

#[test]
fn zero_length_datagrams_are_legal() {
    let (probe, buffer, _) = start(true, 0, 0);
    assert!(buffer.is_empty());
    let empty: &[u8] = &[];
    assert_eq!(probe.echo(&buffer, 0), Ok(empty));
    assert_eq!(zero_datagram(0), Vec::<u8>::new());
}

#[test]
fn count_at_maximum_aborts_with_overflow() {
    let mut probe = Probe {
        window: Window { count: u32::MAX, shortest: Some(5), longest: Some(9), opened_at: 0 },
        last_arrival: 0,
    };
    let before = probe;
    assert_eq!(probe.record_cycle(3, 4), Err(ProbeError::Overflow));
    assert_eq!(probe, before);
}

#[test]
fn window_tracks_shortest_and_longest() {
    let mut probe = Probe::new(0);
    // samples: 100, 50, 300, 50
    assert_eq!(probe.record_cycle(100, 100), Ok(None));
    assert_eq!(probe.record_cycle(150, 150), Ok(None));
    assert_eq!(probe.record_cycle(450, 450), Ok(None));
    assert_eq!(probe.record_cycle(500, 500), Ok(None));
    assert_eq!(probe.window.count, 4);
    assert_eq!(probe.window.shortest, Some(50));
    assert_eq!(probe.window.longest, Some(300));
    assert_eq!(probe.last_arrival, 500);
}

#[test]
fn sample_runs_to_the_update_instant() {
    let mut probe = Probe::new(1_000);
    assert_eq!(probe.record_cycle(1_200, 1_250), Ok(None));
    assert_eq!(probe.window.shortest, Some(250));
    assert_eq!(probe.last_arrival, 1_200);
    assert_eq!(probe.record_cycle(1_300, 1_310), Ok(None));
    assert_eq!(probe.window.shortest, Some(110));
    assert_eq!(probe.window.longest, Some(250));
}

#[test]
fn clock_going_back_gives_zero_sample() {
    let mut probe = Probe::new(500);
    assert_eq!(probe.record_cycle(400, 400), Ok(None));
    assert_eq!(probe.window.shortest, Some(0));
}

#[test]
fn window_reports_after_one_second_and_resets() {
    let mut probe = Probe::new(0);
    assert_eq!(probe.record_cycle(400_000_000, 400_000_000), Ok(None));
    assert_eq!(probe.record_cycle(REPORT_INTERVAL_NANOS, REPORT_INTERVAL_NANOS), Ok(None));
    let report = probe.record_cycle(1_500_000_000, 1_500_000_000);
    assert_eq!(
        report,
        Ok(Some(Report {
            count: 3,
            elapsed: 1_500_000_000,
            shortest: Some(400_000_000),
            longest: Some(600_000_000),
            average: 500_000_000,
        }))
    );
    assert_eq!(
        probe.window,
        Window { count: 0, shortest: None, longest: None, opened_at: 1_500_000_000 }
    );
    assert_eq!(probe.last_arrival, 1_500_000_000);
    // the next window counts only what came after the report
    assert_eq!(probe.record_cycle(1_600_000_000, 1_600_000_000), Ok(None));
    assert_eq!(probe.window.count, 1);
    assert_eq!(probe.window.shortest, Some(100_000_000));
    let next = probe.record_cycle(2_500_000_001, 2_500_000_001).unwrap().unwrap();
    assert_eq!(next.count, 2);
    assert_eq!(next.elapsed, 1_000_000_001);
    assert_eq!(next.average, 500_000_000);
}

#[test]
fn exactly_one_second_does_not_report() {
    let mut probe = Probe::new(0);
    assert_eq!(probe.record_cycle(REPORT_INTERVAL_NANOS, REPORT_INTERVAL_NANOS), Ok(None));
    assert_eq!(probe.window.count, 1);
}

#[test]
fn ties_keep_the_newest_sample() {
    let mut w = Window::new(0);
    assert_eq!(w.record(7), Ok(()));
    assert_eq!(w.record(7), Ok(()));
    assert_eq!(w, Window { count: 2, shortest: Some(7), longest: Some(7), opened_at: 0 });
}

#[test]
fn window_record_overflow_leaves_window() {
    let mut w = Window { count: u32::MAX, shortest: Some(1), longest: Some(2), opened_at: 3 };
    assert_eq!(w.record(0), Err(()));
    assert_eq!(w, Window { count: u32::MAX, shortest: Some(1), longest: Some(2), opened_at: 3 });
}
