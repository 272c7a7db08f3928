use mycitadel::time::{height_date_time_est, height_timestamp_est};

#[test]
fn reference_height_maps_exactly() {
    assert_eq!(height_timestamp_est(733961, 12345), 1651158666);
}

#[test]
fn next_height_adds_block_spacing() {
    assert_eq!(height_timestamp_est(733962, 12345), 1651158666 + 600);
}

#[test]
fn earlier_height_subtracts_block_spacing() {
    assert_eq!(height_timestamp_est(733960, 12345), 1651158666 - 600);
}

#[test]
fn zero_and_negative_heights_map_to_now() {
    assert_eq!(height_timestamp_est(0, 424242), 424242);
    assert_eq!(height_timestamp_est(-1, 99), 99);
}

#[test]
fn clock_backed_estimation_matches_for_confirmed_heights() {
    assert_eq!(height_date_time_est(733961), 1651158666);
    assert_eq!(height_date_time_est(733962), 1651158666 + 600);
}

#[test]
fn clock_backed_estimation_reads_clock_for_unconfirmed() {
    // Anything the clock returns is far past the reference era default
    // of zero; this only checks the pending branch is taken.
    let now = height_date_time_est(0);
    assert!(now > 1651158666);
}
