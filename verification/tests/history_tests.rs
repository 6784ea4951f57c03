use boxtop::history::StatsHistory;

#[test]
fn history_bounds_at_capacity() {
    // Recording capacity + 5 samples keeps exactly the most recent
    // `capacity` samples, in order.
    let capacity = 7usize;
    let mut h = StatsHistory::new(capacity);
    let total = capacity + 5;
    for i in 0..total {
        h.record_cpu("web-1", i as u64);
    }
    let series = h.get_cpu("web-1");
    assert_eq!(series.len(), capacity);
    let expected: Vec<u64> = (5..total).map(|i| i as u64).collect();
    assert_eq!(series, expected);
}

#[test]
fn history_under_capacity_keeps_everything() {
    let mut h = StatsHistory::new(30);
    h.record_mem("db", 100);
    h.record_mem("db", 200);
    assert_eq!(h.get_mem("db"), vec![100, 200]);
    assert_eq!(h.get_cpu("db"), Vec::<u64>::new());
}

#[test]
fn history_keys_are_independent() {
    let mut h = StatsHistory::new(4);
    h.record_cpu("a", 1);
    h.record_cpu("b", 2);
    h.record_cpu("a", 3);
    assert_eq!(h.get_cpu("a"), vec![1, 3]);
    assert_eq!(h.get_cpu("b"), vec![2]);
}

#[test]
fn history_remove_discards_one_series() {
    let mut h = StatsHistory::new(4);
    h.record_cpu("a", 1);
    h.record_cpu("b", 2);
    h.remove("a");
    assert_eq!(h.get_cpu("a"), Vec::<u64>::new());
    assert_eq!(h.get_cpu("b"), vec![2]);
}

#[test]
fn sparkline_pads_and_scales() {
    // Samples are hundredths of a percent: 50% and 100%. Width 5 gives
    // three leading blanks, then increasing intensity for 50 < 100.
    let values = vec![5000u64, 10000u64];
    let s = StatsHistory::to_sparkline(&values, 5);
    assert_eq!(s.chars().count(), 5);
    let chars: Vec<char> = s.chars().collect();
    assert_eq!(chars[0], ' ');
    assert_eq!(chars[1], ' ');
    assert_eq!(chars[2], ' ');
    assert_eq!(s, "   \u{2585}\u{2588}");
}

#[test]
fn sparkline_empty_series_is_blank() {
    let s = StatsHistory::to_sparkline(&Vec::new(), 4);
    assert_eq!(s, "    ");
}

#[test]
fn sparkline_takes_most_recent_window() {
    // Only the last three samples fit the width; the huge early sample must
    // not affect the scaling of the window.
    let values = vec![10000u64, 0, 0, 10000];
    let s = StatsHistory::to_sparkline(&values, 3);
    assert_eq!(s, "\u{2581}\u{2581}\u{2588}");
}

#[test]
fn sparkline_floor_avoids_division_by_zero() {
    let values = vec![0u64];
    let s = StatsHistory::to_sparkline(&values, 1);
    assert_eq!(s, "\u{2581}");
}
