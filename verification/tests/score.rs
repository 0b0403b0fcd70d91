use material_color::score::hue_populations;

#[test]
fn hue_histogram_sums_populations_per_whole_degree() {
    let bins = hue_populations(&[10, 10, 359, 0], &[5, 7, 1, 2]).expect("no overflow");
    assert_eq!(bins.len(), 360);
    assert_eq!(bins[10], 12);
    assert_eq!(bins[359], 1);
    assert_eq!(bins[0], 2);
    assert_eq!(bins.iter().map(|&b| u64::from(b)).sum::<u64>(), 15);
}

#[test]
fn hue_histogram_of_no_colors_is_empty() {
    let bins = hue_populations(&[], &[]).expect("no overflow");
    assert_eq!(bins, vec![0; 360]);
}

#[test]
fn hue_histogram_reports_a_bin_that_overflows() {
    assert_eq!(hue_populations(&[3, 3], &[u32::MAX, 1]), None);
    let bins = hue_populations(&[3, 4], &[u32::MAX, 1]).expect("separate bins");
    assert_eq!(bins[3], u32::MAX);
    assert_eq!(bins[4], 1);
}

#[test]
fn default_score_options_ask_for_four_filtered_colors() {
    let options = material_color::score::ScoreOptions::default();
    assert_eq!(options.desired, 4);
    assert_eq!(options.fallback_color_argb.to_u32(), 0xff42_85f4);
    assert!(options.filter);
}
