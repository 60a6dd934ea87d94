use sdd_validation::{ArtifactPath, Diagnostic, Location, RuleId, Severity};

fn path() -> Option<ArtifactPath> {
    ArtifactPath::try_new("specs/feature/user-story.md").ok()
}

#[test]
fn exposes_diagnostic_context_and_stable_comparison() {
    let Some(path) = path() else { return };
    let first = Diagnostic::new(
        path.clone(),
        Some(Location::new(2, Some(4))),
        "ARTIFACT.USER-STORY.A_RULE",
        Severity::Warning,
        "message",
        "remediation",
    );
    let second = Diagnostic::new(
        path.clone(),
        Some(Location::new(3, None)),
        "ARTIFACT.USER-STORY.B_RULE",
        Severity::Error,
        "message",
        "remediation",
    );

    assert_eq!(first.path().as_str(), path.as_str());
    assert_eq!(first.location(), Some(Location::new(2, Some(4))));
    assert_eq!(first.location().map(Location::line), Some(2));
    assert_eq!(first.location().and_then(Location::column), Some(4));
    assert_eq!(first.rule_id().as_str(), "ARTIFACT.USER-STORY.A_RULE");
    assert_eq!(first.severity(), Severity::Warning);
    assert_eq!(first.message(), "message");
    assert_eq!(first.remediation(), "remediation");
    assert!(first.stable_cmp(&second).is_lt());
    assert!(RuleId::new("B").cmp(&RuleId::new("A")).is_gt());
}

#[test]
fn orders_severity_values() {
    assert!(Severity::Warning < Severity::Error);
    assert_eq!(Location::new(1, None).column(), None);
    assert_eq!(Location::new(1, None).line(), 1);
}

#[test]
fn stable_comparison_orders_location_severity_and_message() {
    let Some(path) = path() else { return };
    let make = |location: Option<Location>, severity: Severity, message: &str| {
        Diagnostic::new(path.clone(), location, "ARTIFACT.X.RULE", severity, message, "fix")
    };
    let unlocated = make(None, Severity::Error, "b");
    let early = make(Some(Location::new(1, None)), Severity::Error, "b");
    let early_column = make(Some(Location::new(1, Some(3))), Severity::Error, "b");
    let warning = make(Some(Location::new(1, Some(3))), Severity::Warning, "b");
    let message_a = make(Some(Location::new(1, Some(3))), Severity::Warning, "a");

    assert!(unlocated.stable_cmp(&early).is_lt());
    assert!(early.stable_cmp(&early_column).is_lt());
    assert!(warning.stable_cmp(&early_column).is_lt());
    assert!(message_a.stable_cmp(&warning).is_lt());
    assert!(warning.stable_cmp(&warning.clone()).is_eq());
}
