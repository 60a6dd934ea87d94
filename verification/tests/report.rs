use sdd_validation::{
    path_encoded_id, ArtifactId, ArtifactKind, ArtifactPath, ArtifactResult, ArtifactSnapshot,
    ArtifactStatus, Diagnostic, DocumentSnapshot, Location, Metadata, OverallStatus, Severity,
    ValidationReport,
};

fn path(value: &str) -> Option<ArtifactPath> {
    ArtifactPath::try_new(value).ok()
}

fn prd_snapshot(value: &str, id: &str) -> Option<ArtifactSnapshot> {
    let mut metadata = Metadata::new();
    metadata.insert_scalar("id", id);
    Some(ArtifactSnapshot::new(path(value)?, ArtifactKind::Prd, metadata, DocumentSnapshot::empty()))
}

#[test]
fn extracts_only_path_encoded_identity_kinds() {
    let Ok(prd_path) = ArtifactPath::try_new("specs/prds/PRD-001.md") else { return };
    let Ok(story_path) = ArtifactPath::try_new("specs/story/user-story.md") else { return };

    assert_eq!(
        path_encoded_id(ArtifactKind::Prd, &prd_path).map(|id| id.as_str().to_owned()),
        Some("PRD-001".to_owned())
    );
    assert_eq!(path_encoded_id(ArtifactKind::UserStory, &story_path), None);
}

#[test]
fn path_encoded_identity_covers_epics_and_adrs() {
    let Some(epic) = path("specs/prds/PRD-001-epics/EPIC-004.md") else { return };
    let Some(adr) = path("specs/adr/ADR-012.md") else { return };
    let Some(odd) = path("specs/adr/notes.md") else { return };
    assert_eq!(
        path_encoded_id(ArtifactKind::Epic, &epic).map(|id| id.as_str().to_owned()),
        Some("EPIC-004".to_owned())
    );
    assert_eq!(
        path_encoded_id(ArtifactKind::Adr, &adr).map(|id| id.as_str().to_owned()),
        Some("ADR-012".to_owned())
    );
    assert_eq!(path_encoded_id(ArtifactKind::Adr, &odd), None);
}

#[test]
fn exposes_result_identity_and_status() {
    let Some(path) = path("specs/prds/PRD-001.md") else { return };
    let mut metadata = Metadata::new();
    metadata.insert_scalar("id", "PRD-001");
    let snapshot =
        ArtifactSnapshot::new(path.clone(), ArtifactKind::Prd, metadata, DocumentSnapshot::empty());
    let result = ArtifactResult::from_snapshot(&snapshot);
    let report = ValidationReport::from_results(vec![result.clone()]);

    assert_eq!(result.path().as_str(), path.as_str());
    assert_eq!(result.kind(), Some(ArtifactKind::Prd));
    assert_eq!(result.id().map(ArtifactId::as_str), Some("PRD-001"));
    assert_eq!(result.status(), ArtifactStatus::Diagnostic);
    assert!(!result.violations().is_empty());
    assert_eq!(report.status(), OverallStatus::Failure);
    assert_eq!(report.artifacts(), &[result]);
    assert_eq!(OverallStatus::from_results(&[]), OverallStatus::Success);
}

#[test]
fn creates_path_only_diagnostic_result() {
    let Some(unknown_path) = path("specs/unrecognized.md") else { return };
    let diagnostic = Diagnostic::new(
        unknown_path.clone(),
        None,
        "ARTIFACT.UNKNOWN.PARSE",
        Severity::Error,
        "cannot parse",
        "repair the file",
    );
    let result = ArtifactResult::from_diagnostic(unknown_path.clone(), diagnostic);
    let Some(identified_snapshot) = prd_snapshot("specs/prds/PRD-001.md", "PRD-001") else {
        return;
    };
    let identified = ArtifactResult::from_snapshot(&identified_snapshot);
    let report = ValidationReport::from_results(vec![result.clone(), identified]);

    assert_eq!(result.path().as_str(), unknown_path.as_str());
    assert_eq!(result.kind(), None);
    assert_eq!(result.id(), None);
    assert_eq!(result.status(), ArtifactStatus::Diagnostic);
    assert_eq!(report.artifacts().len(), 2);
    assert_eq!(report.artifacts().get(1), Some(&result));
}

#[test]
fn creates_internal_candidate_diagnostic() {
    let Some(path) = path("specs/unrecognized.md") else { return };
    let result = ArtifactResult::empty(path);

    assert_eq!(result.violations().len(), 1);
    let Some(diagnostic) = result.violations().first() else { return };
    assert_eq!(diagnostic.severity(), Severity::Error);
}

#[test]
fn empty_candidate_diagnostic_names_the_path() {
    let Some(path) = path("specs/unrecognized.md") else { return };
    let result = ArtifactResult::empty(path);
    let Some(diagnostic) = result.violations().first() else { return };
    assert_eq!(diagnostic.rule_id().as_str(), "ARTIFACT.INTERNAL.EMPTY_CANDIDATE");
    assert_eq!(diagnostic.path().as_str(), "specs/unrecognized.md");
    assert_eq!(result.status(), ArtifactStatus::Diagnostic);
}

#[test]
fn report_order_is_kind_then_identifier_then_path() {
    let Some(second) = prd_snapshot("specs/prds/PRD-002.md", "PRD-002") else { return };
    let Some(first) = prd_snapshot("specs/prds/PRD-001.md", "PRD-001") else { return };
    let Some(adr_path) = path("specs/adr/ADR-001.md") else { return };
    let mut adr_metadata = Metadata::new();
    adr_metadata.insert_scalar("id", "ADR-001");
    let adr = ArtifactSnapshot::new(adr_path, ArtifactKind::Adr, adr_metadata, DocumentSnapshot::empty());
    let results = vec![
        ArtifactResult::from_snapshot(&adr),
        ArtifactResult::from_snapshot(&second),
        ArtifactResult::from_snapshot(&first),
    ];
    let report = ValidationReport::from_results(results.clone());
    let order: Vec<&str> = report.artifacts().iter().map(|r| r.path().as_str()).collect();
    assert_eq!(order, vec!["specs/prds/PRD-001.md", "specs/prds/PRD-002.md", "specs/adr/ADR-001.md"]);

    let reversed: Vec<ArtifactResult> = results.into_iter().rev().collect();
    assert_eq!(ValidationReport::from_results(reversed), report);
}

#[test]
fn with_diagnostics_merges_in_stable_order() {
    let Some(p) = path("specs/unrecognized.md") else { return };
    let late = Diagnostic::new(p.clone(), Some(Location::new(9, None)), "B", Severity::Error, "m", "r");
    let early = Diagnostic::new(p.clone(), Some(Location::new(2, None)), "A", Severity::Error, "m", "r");
    let result = ArtifactResult::from_diagnostic(p.clone(), late.clone());
    let merged = result.with_diagnostics(vec![early.clone()]);
    assert_eq!(merged.violations(), &[early, late]);
    assert_eq!(merged.status(), ArtifactStatus::Diagnostic);
}

#[test]
fn clean_report_succeeds() {
    assert_eq!(ValidationReport::from_results(Vec::new()).status(), OverallStatus::Success);
    assert!(ValidationReport::from_results(Vec::new()).artifacts().is_empty());
}

#[test]
fn warning_only_result_has_diagnostic_status() {
    let Some(p) = path("specs/unrecognized.md") else { return };
    let warning = Diagnostic::new(p.clone(), None, "W", Severity::Warning, "m", "r");
    let result = ArtifactResult::from_diagnostic(p.clone(), warning);
    assert_eq!(result.status(), ArtifactStatus::Diagnostic);
    assert_eq!(result.violations().len(), 1);
    let copy = result.clone();
    assert_eq!(copy, result);
}

#[test]
fn report_keeps_order_and_status_of_its_results() {
    let Some(prd) = prd_snapshot("specs/prds/PRD-002.md", "PRD-002") else { return };
    let Some(p) = path("specs/unrecognized.md") else { return };
    let failing = ArtifactResult::from_diagnostic(
        p.clone(),
        Diagnostic::new(p.clone(), None, "X", Severity::Error, "m", "r"),
    );
    let report =
        ValidationReport::from_results(vec![failing, ArtifactResult::from_snapshot(&prd)]);
    assert_eq!(report.status(), OverallStatus::Failure);
    assert_eq!(report.artifacts()[0].kind(), Some(ArtifactKind::Prd));
    assert_eq!(report.artifacts()[1].kind(), None);
    assert_eq!(report.clone(), report);
}
