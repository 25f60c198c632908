use braid::witness::{format_stale_reason, StaleReason};

#[test]
fn single_reasons_have_fixed_phrases() {
    assert_eq!(format_stale_reason(&StaleReason::SpecDrift), "spec statement changed");
    assert_eq!(
        format_stale_reason(&StaleReason::FalsificationDrift),
        "falsification condition changed"
    );
    assert_eq!(format_stale_reason(&StaleReason::TestBodyDrift), "test body changed");
}

#[test]
fn multi_drift_joins_with_plus() {
    let r = StaleReason::MultiDrift(vec![StaleReason::SpecDrift, StaleReason::TestBodyDrift]);
    assert_eq!(format_stale_reason(&r), "spec statement changed + test body changed");
}

#[test]
fn nested_multi_drift_flattens_text() {
    let inner = StaleReason::MultiDrift(vec![StaleReason::FalsificationDrift, StaleReason::SpecDrift]);
    let r = StaleReason::MultiDrift(vec![StaleReason::TestBodyDrift, inner]);
    assert_eq!(
        format_stale_reason(&r),
        "test body changed + falsification condition changed + spec statement changed"
    );
}

#[test]
fn empty_multi_drift_is_empty_text() {
    assert_eq!(format_stale_reason(&StaleReason::MultiDrift(Vec::new())), "");
}
