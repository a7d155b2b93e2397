use ebur128::histogram::{gated_sums, percentile_bin, BIN_COUNT};
use ebur128::{BlockHistory, Histogram};

/// A monotone fixed-point energy table: bin 0 quietest.
fn energy_table() -> Vec<u64> {
    let mut energies = Vec::new();
    for i in 0..BIN_COUNT {
        energies.push(1 + (i as u64) * 1000);
    }
    energies
}

#[test]
fn empty_histogram_yields_sentinel() {
    let h = Histogram::new();
    let energies = energy_table();
    assert!(h.integrated_energy(&energies).is_none());
    assert!(h.loudness_range_bins(&energies).is_none());
}

#[test]
fn empty_history_yields_sentinel() {
    let hist = BlockHistory::new(30);
    assert!(hist.latest().is_none());
    let (sum, n) = hist.span_sums();
    assert_eq!(sum, 0);
    assert_eq!(n, 0);
}

#[test]
fn integrated_keeps_single_loud_block() {
    // One block far above both thresholds; blocks at silence never enter the
    // histogram at all (the absolute gate sits below bin 0), so the
    // integrated energy is the loud block's own energy.
    let mut h = Histogram::new();
    h.add(900);
    let energies = energy_table();
    let (s, n) = h.integrated_energy(&energies).unwrap();
    assert_eq!(n, 1);
    assert_eq!(s, energies[900] as u128);
}

#[test]
fn relative_gate_discards_quiet_blocks() {
    // One loud block and many quiet ones: the quiet bin's energy falls
    // below a tenth of the mean, so stage two leaves the loud block alone.
    let mut h = Histogram::new();
    h.add(999);
    for _ in 0..10 {
        h.add(0);
    }
    let energies = energy_table();
    // mean = (999*1000 + 1 + 10) / 11 ~ 90819; gate ~ 9081 > energies[0].
    let (s, n) = h.integrated_energy(&energies).unwrap();
    assert_eq!(n, 1);
    assert_eq!(s, energies[999] as u128);
}

#[test]
fn integrated_means_equal_energy_blocks() {
    // Blocks of one energy: the gated mean is exactly that energy.
    let mut h = Histogram::new();
    for _ in 0..7 {
        h.add(500);
    }
    let energies = energy_table();
    let (s, n) = h.integrated_energy(&energies).unwrap();
    assert_eq!(n, 7);
    assert_eq!(s, 7 * energies[500] as u128);
    assert_eq!(s / n, energies[500] as u128);
}

#[test]
fn gated_sums_discard_below_threshold() {
    let counts: Vec<u64> = vec![1, 0, 2];
    let energies: Vec<u64> = vec![5, 7, 9];
    let (s, n) = gated_sums(&counts, &energies, 6);
    assert_eq!(s, 18);
    assert_eq!(n, 2);
    let (s_all, n_all) = gated_sums(&counts, &energies, 0);
    assert_eq!(s_all, 23);
    assert_eq!(n_all, 3);
}

#[test]
fn percentile_bin_walks_cumulative_counts() {
    let counts: Vec<u64> = vec![0, 2, 0, 3];
    let energies: Vec<u64> = vec![1, 2, 3, 4];
    assert_eq!(percentile_bin(&counts, &energies, 0, 1), Some(1));
    assert_eq!(percentile_bin(&counts, &energies, 0, 2), Some(1));
    assert_eq!(percentile_bin(&counts, &energies, 0, 3), Some(3));
    assert_eq!(percentile_bin(&counts, &energies, 0, 5), Some(3));
    assert_eq!(percentile_bin(&counts, &energies, 0, 6), None);
    // The threshold removes bin 1 from the cumulative mass.
    assert_eq!(percentile_bin(&counts, &energies, 3, 1), Some(3));
}

#[test]
fn loudness_range_bins_span_the_mass() {
    let mut h = Histogram::new();
    for _ in 0..50 {
        h.add(300);
    }
    for _ in 0..50 {
        h.add(320);
    }
    let energies = energy_table();
    let (lo, hi) = h.loudness_range_bins(&energies).unwrap();
    assert_eq!(lo, 300);
    assert_eq!(hi, 320);
    assert!(lo <= hi);
}

#[test]
fn histogram_reset_behaves_like_fresh() {
    let mut h = Histogram::new();
    h.add(10);
    h.add(999);
    h.reset();
    let fresh = Histogram::new();
    assert_eq!(h.counts(), fresh.counts());
    let energies = energy_table();
    assert!(h.integrated_energy(&energies).is_none());
}

#[test]
fn history_keeps_last_blocks() {
    let mut hist = BlockHistory::new(3);
    hist.push(1);
    hist.push(2);
    hist.push(3);
    hist.push(4);
    assert_eq!(hist.latest(), Some(4));
    let (sum, n) = hist.span_sums();
    assert_eq!(sum, 9);
    assert_eq!(n, 3);
}

#[test]
fn history_mean_energy_is_span_mean() {
    let mut hist = BlockHistory::new(4);
    assert_eq!(hist.mean_energy(), None);
    hist.push(10);
    hist.push(20);
    hist.push(31);
    assert_eq!(hist.mean_energy(), Some(20));
    hist.push(40);
    hist.push(100);
    assert_eq!(hist.mean_energy(), Some(47));
}

#[test]
fn history_reset_behaves_like_fresh() {
    let mut hist = BlockHistory::new(30);
    hist.push(7);
    hist.push(8);
    hist.reset();
    assert!(hist.latest().is_none());
    let fresh = BlockHistory::new(30);
    hist.push(5);
    let mut fresh2 = fresh;
    fresh2.push(5);
    assert_eq!(hist.latest(), fresh2.latest());
    assert_eq!(hist.span_sums(), fresh2.span_sums());
}
