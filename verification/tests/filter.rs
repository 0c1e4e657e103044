//! Which deployments and entity types are exported.

use questdb_sink::EntityFilter;

#[test]
fn entity_filter_all_matches_everything() {
    let filter = EntityFilter::from_rule(&["*".to_string()]);
    assert!(matches!(filter, EntityFilter::All));
    assert!(filter.matches("Transfer"));
    assert!(filter.matches("Anything"));
}

#[test]
fn entity_filter_all_takes_precedence_over_names() {
    // A wildcard anywhere in the list means "all".
    let filter = EntityFilter::from_rule(&["Transfer".to_string(), "*".to_string()]);
    assert!(matches!(filter, EntityFilter::All));
    assert!(filter.matches("Swap"));
}

#[test]
fn entity_filter_only_matches_listed() {
    let filter = EntityFilter::from_rule(&["Transfer".to_string(), "Swap".to_string()]);
    assert!(matches!(filter, EntityFilter::Only(_)));
    assert!(filter.matches("Transfer"));
    assert!(filter.matches("Swap"));
    assert!(!filter.matches("Mint"));
    assert!(!filter.matches("transfer")); // case-sensitive
}

#[test]
fn entity_filter_empty_matches_nothing() {
    let filter = EntityFilter::from_rule(&[]);
    assert!(!filter.matches("Transfer"));
}
