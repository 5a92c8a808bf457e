use netscope::dissect::expert::{Group, Severity, GROUPS, SEVERITIES};

#[test]
fn severities_are_ordered_worst_last() {
    // The packet list keeps the maximum, so the ordering is load-bearing.
    assert!(Severity::Error > Severity::Warn);
    assert!(Severity::Warn > Severity::Note);
    assert!(Severity::Note > Severity::Chat);
    assert!(Severity::Chat > Severity::Comment);
    assert_eq!(
        [Severity::Note, Severity::Error, Severity::Chat]
            .into_iter()
            .max(),
        Some(Severity::Error)
    );
}

#[test]
fn the_tables_agree_with_the_enums() {
    // The value tables drive the registry's rendering, and the enums drive
    // the code; a mismatch would label a severity wrongly in the tree.
    for (v, name) in &SEVERITIES {
        assert_eq!(Severity::from_u64(*v).name(), *name);
    }
    for (v, name) in &GROUPS {
        assert_eq!(Group::from_u64(*v).name(), *name);
    }
}
