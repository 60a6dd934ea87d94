use std::cell::Cell;
use std::rc::Rc;

use sdd_validation::{
    cycle_outcome, identity_outcome, reciprocal_outcome, relationship_outcome, structural_outcome,
    ArtifactCandidate, ArtifactIdentitySource, ArtifactKind, ArtifactPath, ArtifactResult,
    ArtifactSnapshot, ArtifactSource, CycleValidator, Diagnostic, DocumentSnapshot, Heading,
    IdentityValidator, Metadata, MetadataValue, OverallStatus, ReciprocalRelationshipValidator,
    RelationshipValidator, Severity, ValidationError, ValidationReport, Validator,
};

#[derive(Clone, Debug)]
struct InMemorySource {
    candidates: Vec<ArtifactCandidate>,
    calls: Rc<Cell<usize>>,
    error: Option<String>,
}

impl InMemorySource {
    fn new(candidates: Vec<ArtifactCandidate>) -> Self {
        Self { candidates, calls: Rc::new(Cell::new(0)), error: None }
    }

    fn counting(candidates: Vec<ArtifactCandidate>, calls: Rc<Cell<usize>>) -> Self {
        Self { candidates, calls, error: None }
    }

    fn failing(message: &str) -> Self {
        Self { candidates: Vec::new(), calls: Rc::new(Cell::new(0)), error: Some(message.to_owned()) }
    }

    fn failing_counted(message: &str, calls: Rc<Cell<usize>>) -> Self {
        Self { candidates: Vec::new(), calls, error: Some(message.to_owned()) }
    }

    fn answer(&self) -> Result<Vec<ArtifactCandidate>, ValidationError> {
        self.calls.set(self.calls.get() + 1);
        if let Some(message) = &self.error {
            return Err(ValidationError::Discovery(message.clone()));
        }
        Ok(self.candidates.clone())
    }
}

impl ArtifactSource for InMemorySource {
    fn discover(&self) -> Result<Vec<ArtifactCandidate>, ValidationError> {
        self.answer()
    }
}

impl ArtifactIdentitySource for InMemorySource {
    fn discover_identities(&self) -> Result<Vec<ArtifactCandidate>, ValidationError> {
        self.answer()
    }
}

fn plain_snapshot(path: &str, kind: ArtifactKind) -> Option<ArtifactSnapshot> {
    Some(ArtifactSnapshot::new(
        ArtifactPath::try_new(path).ok()?,
        kind,
        Metadata::new(),
        DocumentSnapshot::empty(),
    ))
}

fn snapshot(
    path: &str,
    kind: ArtifactKind,
    id: &str,
    relationships: &[(&str, MetadataValue)],
) -> ArtifactSnapshot {
    let Ok(path) = ArtifactPath::try_new(path) else { panic!("fixture path") };
    let mut metadata = Metadata::new();
    metadata.insert_scalar("id", id);
    for (field, value) in relationships {
        metadata.insert(field, value.clone());
    }
    ArtifactSnapshot::new(path, kind, metadata, DocumentSnapshot::empty())
}

fn sequence(values: &[&str]) -> MetadataValue {
    MetadataValue::sequence(values)
}

fn valid_adr(path: &str, id: &str, related: &[&str]) -> ArtifactSnapshot {
    let Ok(path) = ArtifactPath::try_new(path) else { panic!("fixture path") };
    let mut metadata = Metadata::new();
    metadata.insert_scalar("id", id);
    metadata.insert_scalar("title", "Reciprocal fixture");
    metadata.insert_scalar("type", "architecture-decision-record");
    metadata.insert_scalar("status", "approved");
    metadata.insert_scalar("created", "2026-09-05");
    metadata.insert_scalar("updated", "2026-09-05");
    metadata.insert_scalar("owner", "test-owner");
    metadata.insert("supersedes", MetadataValue::Null);
    metadata.insert("superseded_by", MetadataValue::Null);
    metadata.insert_sequence("related", related);
    let headings =
        ["Context", "Decision", "Alternatives Considered", "Consequences", "Follow-Up Actions"]
            .iter()
            .enumerate()
            .map(|(line, text)| Heading::new(2, text, line + 1))
            .collect();
    ArtifactSnapshot::new(
        path,
        ArtifactKind::Adr,
        metadata,
        DocumentSnapshot::new(Vec::new(), headings, Vec::new(), None),
    )
}

fn result_for<'a>(report: &'a ValidationReport, path: &str) -> Option<&'a ArtifactResult> {
    report.artifacts().iter().find(|artifact| artifact.path().as_str() == path)
}

fn with_rule<'a>(result: &'a ArtifactResult, rule: &str) -> Vec<&'a Diagnostic> {
    result.violations().iter().filter(|diagnostic| diagnostic.rule_id().as_str() == rule).collect()
}

fn relationship_diagnostics(result: &ArtifactResult) -> Vec<&Diagnostic> {
    result
        .violations()
        .iter()
        .filter(|diagnostic| diagnostic.rule_id().as_str().starts_with("ARTIFACT.RELATIONSHIP."))
        .collect()
}

fn source_read(path: &ArtifactPath) -> Diagnostic {
    Diagnostic::new(
        path.clone(),
        None,
        "ARTIFACT.USER-STORY.SOURCE_READ",
        Severity::Error,
        "artifact could not be read",
        "make the artifact readable",
    )
}

fn is_root_failure(result: &Result<ValidationReport, ValidationError>) -> bool {
    matches!(
        result,
        Err(ValidationError::Discovery(message)) if message == "repository root unavailable"
    )
}

// Structural validation.

#[test]
fn empty_source_returns_successful_empty_report() {
    let result = Validator::new(InMemorySource::new(Vec::new())).validate();

    assert!(result.is_ok());
    let Ok(report) = result else { return };
    assert!(report.artifacts().is_empty());
    assert_eq!(report.status(), OverallStatus::Success);
}

#[test]
fn validates_every_candidate_and_retains_source_diagnostics() {
    let Some(first) = plain_snapshot("specs/first/user-story.md", ArtifactKind::UserStory) else {
        return;
    };
    let Some(path) = ArtifactPath::try_new("specs/second/user-story.md").ok() else {
        return;
    };
    let source_diagnostic = Diagnostic::new(
        path.clone(),
        None,
        "ARTIFACT.USER-STORY.SOURCE",
        Severity::Error,
        "source could not be read",
        "make the file readable",
    );
    let candidates = vec![
        ArtifactCandidate::from_snapshot(first),
        ArtifactCandidate::from_diagnostic(path, source_diagnostic),
    ];
    let result = Validator::new(InMemorySource::new(candidates)).validate();

    assert!(result.is_ok());
    let Ok(report) = result else { return };
    assert_eq!(report.artifacts().len(), 2);
    assert!(report.artifacts().iter().all(|artifact| !artifact.violations().is_empty()));
    assert_eq!(report.status(), OverallStatus::Failure);
}

#[test]
fn returns_typed_error_when_discovery_cannot_be_established() {
    let result = Validator::new(InMemorySource::failing("repository root unavailable")).validate();

    assert!(is_root_failure(&result));
}

#[test]
fn discovery_error_message_names_the_cause() {
    let error = ValidationError::Discovery("repository root unavailable".to_owned());
    assert_eq!(error.message(), "artifact discovery failed: repository root unavailable");
}

// Identity validation.

#[test]
fn returns_success_for_empty_identity_source() {
    let result = IdentityValidator::new(InMemorySource::new(Vec::new())).validate();

    assert!(result.is_ok());
    let Ok(report) = result else { return };
    assert!(report.artifacts().is_empty());
    assert_eq!(report.status(), OverallStatus::Success);
}

#[test]
fn merges_identity_findings_into_all_affected_results() {
    let candidates = vec![
        ArtifactCandidate::from_snapshot(snapshot(
            "specs/current/user-story.md",
            ArtifactKind::UserStory,
            "US-001",
            &[],
        )),
        ArtifactCandidate::from_snapshot(snapshot(
            "specs/archive/001-old/user-story.md",
            ArtifactKind::UserStory,
            "US-001",
            &[],
        )),
        ArtifactCandidate::from_snapshot(snapshot(
            "specs/current/requirements.md",
            ArtifactKind::Requirements,
            "REQ-001",
            &[],
        )),
    ];

    let report = IdentityValidator::new(InMemorySource::new(candidates)).validate();
    assert!(report.is_ok());
    let Ok(report) = report else { return };

    assert_eq!(report.status(), OverallStatus::Failure);
    for path in ["specs/current/user-story.md", "specs/archive/001-old/user-story.md"] {
        let Some(result) = result_for(&report, path) else { panic!("missing result") };
        assert_eq!(with_rule(result, "ARTIFACT.IDENTITY.DUPLICATE_ID").len(), 1);
    }
    let Some(unrelated) = result_for(&report, "specs/current/requirements.md") else {
        panic!("missing result")
    };
    assert!(!unrelated
        .violations()
        .iter()
        .any(|diagnostic| diagnostic.rule_id().as_str().starts_with("ARTIFACT.IDENTITY.")));
}

#[test]
fn retains_structural_diagnostics_without_reparsing_identity() {
    let Ok(path) = ArtifactPath::try_new("specs/current/user-story.md") else { return };
    let parser_diagnostic = Diagnostic::new(
        path.clone(),
        None,
        "ARTIFACT.USER-STORY.FRONTMATTER_PARSE",
        Severity::Error,
        "frontmatter is malformed",
        "repair the frontmatter",
    );
    let snapshot =
        ArtifactSnapshot::new(path, ArtifactKind::UserStory, Metadata::new(), DocumentSnapshot::empty())
            .with_parser_diagnostics(vec![parser_diagnostic]);

    let report =
        IdentityValidator::new(InMemorySource::new(vec![ArtifactCandidate::from_snapshot(snapshot)]))
            .validate();
    assert!(report.is_ok());
    let Ok(report) = report else { return };
    let Some(result) = result_for(&report, "specs/current/user-story.md") else {
        panic!("missing result")
    };

    assert!(result
        .violations()
        .iter()
        .any(|diagnostic| diagnostic.rule_id().as_str() == "ARTIFACT.USER-STORY.FRONTMATTER_PARSE"));
    assert!(!result
        .violations()
        .iter()
        .any(|diagnostic| diagnostic.rule_id().as_str().starts_with("ARTIFACT.IDENTITY.")));
}

#[test]
fn returns_typed_error_for_identity_discovery_failure() {
    let result =
        IdentityValidator::new(InMemorySource::failing("repository root unavailable")).validate();

    assert!(is_root_failure(&result));
}

// Relationship validation.

#[test]
fn returns_success_for_empty_relationship_source() {
    let result = RelationshipValidator::new(InMemorySource::new(Vec::new())).validate();

    assert!(result.is_ok());
    let Ok(report) = result else { return };
    assert!(report.artifacts().is_empty());
    assert_eq!(report.status(), OverallStatus::Success);
}

#[test]
fn merges_missing_relationship_findings_and_retains_unrelated_results() {
    let invalid = snapshot(
        "specs/current/story.md",
        ArtifactKind::UserStory,
        "US-001",
        &[("depends_on", sequence(&["REQ-404", "REQ-405"]))],
    );
    let unrelated =
        snapshot("specs/current/requirements.md", ArtifactKind::Requirements, "REQ-001", &[]);
    let source = InMemorySource::new(vec![
        ArtifactCandidate::from_snapshot(invalid),
        ArtifactCandidate::from_snapshot(unrelated),
    ]);

    let result = RelationshipValidator::new(source).validate();

    assert!(result.is_ok());
    let Ok(report) = result else { return };
    assert_eq!(report.status(), OverallStatus::Failure);
    let Some(invalid_result) = result_for(&report, "specs/current/story.md") else { panic!() };
    assert_eq!(relationship_diagnostics(invalid_result).len(), 2);
    let Some(unrelated_result) = result_for(&report, "specs/current/requirements.md") else {
        panic!()
    };
    assert!(relationship_diagnostics(unrelated_result).is_empty());
}

#[test]
fn reports_wrong_kind_relationship_on_referencing_artifact() {
    let source = snapshot(
        "specs/current/story.md",
        ArtifactKind::UserStory,
        "US-001",
        &[("parent", MetadataValue::scalar("ADR-001"))],
    );
    let target = snapshot("specs/adr/ADR-001.md", ArtifactKind::Adr, "ADR-001", &[]);
    let source = InMemorySource::new(vec![
        ArtifactCandidate::from_snapshot(source),
        ArtifactCandidate::from_snapshot(target),
    ]);

    let result = RelationshipValidator::new(source).validate();

    assert!(result.is_ok());
    let Ok(report) = result else { return };
    let Some(artifact) = result_for(&report, "specs/current/story.md") else { panic!() };
    let diagnostics = relationship_diagnostics(artifact);
    let Some(diagnostic) = diagnostics.first() else { panic!() };
    assert_eq!(diagnostic.rule_id().as_str(), "ARTIFACT.RELATIONSHIP.WRONG_KIND");
    assert!(diagnostic.message().contains("PRD"));
    assert!(diagnostic.message().contains("ADR"));
}

#[test]
fn preserves_structural_findings_without_target_duplicates() {
    let Ok(path) = ArtifactPath::try_new("specs/current/story.md") else { return };
    let structural = Diagnostic::new(
        path.clone(),
        None,
        "ARTIFACT.USER-STORY.REFERENCE_SYNTAX",
        Severity::Error,
        "relationship value is malformed",
        "repair the relationship value",
    );
    let snapshot =
        ArtifactSnapshot::new(path, ArtifactKind::UserStory, Metadata::new(), DocumentSnapshot::empty())
            .with_parser_diagnostics(vec![structural]);

    let result = RelationshipValidator::new(InMemorySource::new(vec![
        ArtifactCandidate::from_snapshot(snapshot),
    ]))
    .validate();

    assert!(result.is_ok());
    let Ok(report) = result else { return };
    let Some(artifact) = result_for(&report, "specs/current/story.md") else { return };
    assert!(artifact
        .violations()
        .iter()
        .any(|diagnostic| diagnostic.rule_id().as_str() == "ARTIFACT.USER-STORY.REFERENCE_SYNTAX"));
    assert!(relationship_diagnostics(artifact).is_empty());
}

#[test]
fn retains_per_file_source_diagnostics() {
    let Ok(path) = ArtifactPath::try_new("specs/current/unreadable.md") else { return };
    let source_diagnostic = source_read(&path);

    let result = RelationshipValidator::new(InMemorySource::new(vec![
        ArtifactCandidate::from_diagnostic(path, source_diagnostic),
    ]))
    .validate();

    assert!(result.is_ok());
    let Ok(report) = result else { return };
    let Some(artifact) = result_for(&report, "specs/current/unreadable.md") else { return };
    assert!(artifact
        .violations()
        .iter()
        .any(|diagnostic| diagnostic.rule_id().as_str() == "ARTIFACT.USER-STORY.SOURCE_READ"));
    assert!(relationship_diagnostics(artifact).is_empty());
}

#[test]
fn returns_typed_error_for_relationship_discovery_failure() {
    let result =
        RelationshipValidator::new(InMemorySource::failing("repository root unavailable")).validate();

    assert!(is_root_failure(&result));
}

// Reciprocal relationship validation.

#[test]
fn returns_success_for_empty_and_reciprocal_sources() {
    let source = valid_adr("specs/adr/ADR-001.md", "ADR-001", &["ADR-002"]);
    let target = valid_adr("specs/archive/001-old/ADR-002.md", "ADR-002", &["ADR-001"]);

    let empty = ReciprocalRelationshipValidator::new(InMemorySource::new(Vec::new())).validate();
    let reciprocal = ReciprocalRelationshipValidator::new(InMemorySource::new(vec![
        ArtifactCandidate::from_snapshot(source),
        ArtifactCandidate::from_snapshot(target),
    ]))
    .validate();

    assert!(empty.is_ok());
    assert!(reciprocal.is_ok());
    let Ok(empty) = empty else { return };
    let Ok(reciprocal) = reciprocal else { return };
    assert_eq!(empty.status(), OverallStatus::Success);
    assert_eq!(reciprocal.status(), OverallStatus::Success);
    assert_eq!(reciprocal.artifacts().len(), 2);
}

#[test]
fn merges_target_and_reciprocity_findings_without_suppressing_results() {
    let source = snapshot(
        "specs/current/user-story.md",
        ArtifactKind::UserStory,
        "US-001",
        &[("related", sequence(&["REQ-404", "US-002"]))],
    );
    let target =
        snapshot("specs/archive/001-old/user-story.md", ArtifactKind::UserStory, "US-002", &[]);
    let unrelated =
        snapshot("specs/current/requirements.md", ArtifactKind::Requirements, "REQ-001", &[]);
    let result = ReciprocalRelationshipValidator::new(InMemorySource::new(vec![
        ArtifactCandidate::from_snapshot(source),
        ArtifactCandidate::from_snapshot(target),
        ArtifactCandidate::from_snapshot(unrelated),
    ]))
    .validate();

    assert!(result.is_ok());
    let Ok(report) = result else { return };
    assert_eq!(report.status(), OverallStatus::Failure);
    let Some(source_result) = result_for(&report, "specs/current/user-story.md") else { panic!() };
    assert_eq!(with_rule(source_result, "ARTIFACT.RELATIONSHIP.NON_RECIPROCAL").len(), 1);
    assert!(source_result.violations().iter().any(|diagnostic| {
        diagnostic.rule_id().as_str() == "ARTIFACT.RELATIONSHIP.MISSING_TARGET"
            && diagnostic.message().contains("REQ-404")
    }));
    assert!(result_for(&report, "specs/current/requirements.md").is_some());
}

#[test]
fn retains_source_diagnostics_and_skips_invalid_values() {
    let Ok(path) = ArtifactPath::try_new("specs/current/user-story.md") else { return };
    let source_diagnostic = source_read(&path);
    let snapshot =
        ArtifactSnapshot::new(path, ArtifactKind::UserStory, Metadata::new(), DocumentSnapshot::empty())
            .with_parser_diagnostics(vec![source_diagnostic]);

    let result = ReciprocalRelationshipValidator::new(InMemorySource::new(vec![
        ArtifactCandidate::from_snapshot(snapshot),
    ]))
    .validate();

    assert!(result.is_ok());
    let Ok(report) = result else { return };
    let Some(artifact) = result_for(&report, "specs/current/user-story.md") else { return };
    assert!(artifact
        .violations()
        .iter()
        .any(|diagnostic| diagnostic.rule_id().as_str() == "ARTIFACT.USER-STORY.SOURCE_READ"));
    assert!(with_rule(artifact, "ARTIFACT.RELATIONSHIP.NON_RECIPROCAL").is_empty());
}

#[test]
fn reports_both_supersession_directions_on_their_sources() {
    let superseder = snapshot(
        "specs/current/first-user-story.md",
        ArtifactKind::UserStory,
        "US-001",
        &[("supersedes", MetadataValue::scalar("US-002"))],
    );
    let superseded_by = snapshot(
        "specs/current/second-user-story.md",
        ArtifactKind::UserStory,
        "US-003",
        &[("superseded_by", MetadataValue::scalar("US-004"))],
    );
    let target =
        snapshot("specs/archive/001-old/user-story.md", ArtifactKind::UserStory, "US-002", &[]);
    let successor =
        snapshot("specs/archive/002-old/user-story.md", ArtifactKind::UserStory, "US-004", &[]);
    let result = ReciprocalRelationshipValidator::new(InMemorySource::new(vec![
        ArtifactCandidate::from_snapshot(superseder),
        ArtifactCandidate::from_snapshot(superseded_by),
        ArtifactCandidate::from_snapshot(target),
        ArtifactCandidate::from_snapshot(successor),
    ]))
    .validate();

    assert!(result.is_ok());
    let Ok(report) = result else { return };
    assert_eq!(
        report
            .artifacts()
            .iter()
            .flat_map(ArtifactResult::violations)
            .filter(|diagnostic| diagnostic.rule_id().as_str() == "ARTIFACT.RELATIONSHIP.NON_RECIPROCAL")
            .count(),
        2
    );
}

#[test]
fn returns_identical_reports_for_repeated_validation() {
    let source = snapshot(
        "specs/current/user-story.md",
        ArtifactKind::UserStory,
        "US-001",
        &[("related", sequence(&["US-002"]))],
    );
    let target =
        snapshot("specs/archive/001-old/user-story.md", ArtifactKind::UserStory, "US-002", &[]);
    let source = InMemorySource::new(vec![
        ArtifactCandidate::from_snapshot(source),
        ArtifactCandidate::from_snapshot(target),
    ]);

    let first = ReciprocalRelationshipValidator::new(source.clone()).validate();
    let second = ReciprocalRelationshipValidator::new(source).validate();

    assert_eq!(first, second);
}

#[test]
fn reciprocal_relationships_returns_typed_error_for_discovery_failure() {
    let result =
        ReciprocalRelationshipValidator::new(InMemorySource::failing("repository root unavailable"))
            .validate();

    assert!(is_root_failure(&result));
}

// Cycle validation.

#[test]
fn returns_success_for_empty_source() {
    let calls = Rc::new(Cell::new(0));
    let result =
        CycleValidator::new(InMemorySource::counting(Vec::new(), Rc::clone(&calls))).validate();
    assert!(result.is_ok());
    let Ok(report) = result else { return };

    assert_eq!(report.status(), OverallStatus::Success);
    assert!(report.artifacts().is_empty());
    assert_eq!(calls.get(), 1);
}

#[test]
fn merges_cycle_and_existing_relationship_findings_by_source() {
    let first = snapshot(
        "specs/current/first-user-story.md",
        ArtifactKind::UserStory,
        "US-001",
        &[("depends_on", sequence(&["US-002", "REQ-404"]))],
    );
    let second = snapshot(
        "specs/archive/001-old/user-story.md",
        ArtifactKind::UserStory,
        "US-002",
        &[("depends_on", sequence(&["US-001"]))],
    );
    let unrelated =
        snapshot("specs/current/requirements.md", ArtifactKind::Requirements, "REQ-001", &[]);
    let calls = Rc::new(Cell::new(0));
    let source = InMemorySource::counting(
        vec![
            ArtifactCandidate::from_snapshot(first),
            ArtifactCandidate::from_snapshot(second),
            ArtifactCandidate::from_snapshot(unrelated),
        ],
        Rc::clone(&calls),
    );

    let result = CycleValidator::new(source).validate();
    assert!(result.is_ok());
    let Ok(report) = result else { return };

    assert_eq!(report.status(), OverallStatus::Failure);
    assert_eq!(report.artifacts().len(), 3);
    assert_eq!(calls.get(), 1);
    let Some(first_result) = result_for(&report, "specs/current/first-user-story.md") else {
        panic!()
    };
    assert_eq!(with_rule(first_result, "ARTIFACT.RELATIONSHIP.CYCLE").len(), 1);
    assert!(first_result.violations().iter().any(|diagnostic| {
        diagnostic.rule_id().as_str() == "ARTIFACT.RELATIONSHIP.MISSING_TARGET"
            && diagnostic.message().contains("REQ-404")
    }));
    let Some(second_result) = result_for(&report, "specs/archive/001-old/user-story.md") else {
        panic!()
    };
    assert_eq!(with_rule(second_result, "ARTIFACT.RELATIONSHIP.CYCLE").len(), 1);
    let Some(unrelated_result) = result_for(&report, "specs/current/requirements.md") else {
        panic!()
    };
    assert!(with_rule(unrelated_result, "ARTIFACT.RELATIONSHIP.CYCLE").is_empty());
}

#[test]
fn retains_non_reciprocal_findings_with_supersession_cycles() {
    let first = snapshot(
        "specs/current/first-user-story.md",
        ArtifactKind::UserStory,
        "US-001",
        &[("supersedes", MetadataValue::scalar("US-002"))],
    );
    let second = snapshot(
        "specs/current/second-user-story.md",
        ArtifactKind::UserStory,
        "US-002",
        &[("supersedes", MetadataValue::scalar("US-003"))],
    );
    let third = snapshot(
        "specs/current/third-user-story.md",
        ArtifactKind::UserStory,
        "US-003",
        &[("supersedes", MetadataValue::scalar("US-001"))],
    );
    let source = InMemorySource::new(vec![
        ArtifactCandidate::from_snapshot(first),
        ArtifactCandidate::from_snapshot(second),
        ArtifactCandidate::from_snapshot(third),
    ]);

    let result = CycleValidator::new(source).validate();
    assert!(result.is_ok());
    let Ok(report) = result else { return };

    assert_eq!(
        report
            .artifacts()
            .iter()
            .flat_map(ArtifactResult::violations)
            .filter(|diagnostic| diagnostic.rule_id().as_str() == "ARTIFACT.RELATIONSHIP.CYCLE")
            .count(),
        3
    );
    let Some(first_result) = result_for(&report, "specs/current/first-user-story.md") else {
        panic!()
    };
    assert!(!with_rule(first_result, "ARTIFACT.RELATIONSHIP.NON_RECIPROCAL").is_empty());
    assert_eq!(with_rule(first_result, "ARTIFACT.RELATIONSHIP.CYCLE").len(), 1);
}

#[test]
fn preserves_source_diagnostics_and_returns_identical_reports() {
    let Ok(path) = ArtifactPath::try_new("specs/current/unreadable.md") else {
        return;
    };
    let candidate = ArtifactCandidate::from_diagnostic(path.clone(), source_read(&path));
    let calls = Rc::new(Cell::new(0));
    let source = InMemorySource::counting(vec![candidate], Rc::clone(&calls));

    let first = CycleValidator::new(source.clone()).validate();
    let second = CycleValidator::new(source).validate();

    assert_eq!(first, second);
    assert_eq!(calls.get(), 2);
    let Ok(report) = first else { return };
    let Some(artifact) = report.artifacts().first() else { return };
    assert_eq!(artifact.violations().len(), 1);
    let Some(diagnostic) = artifact.violations().first() else { return };
    assert_eq!(diagnostic.rule_id().as_str(), "ARTIFACT.USER-STORY.SOURCE_READ");
}

#[test]
fn cycles_returns_typed_error_for_discovery_failure() {
    let calls = Rc::new(Cell::new(0));
    let result = CycleValidator::new(InMemorySource::failing_counted(
        "repository root unavailable",
        Rc::clone(&calls),
    ))
    .validate();

    assert!(is_root_failure(&result));
    assert_eq!(calls.get(), 1);
}

#[test]
fn cycle_report_does_not_depend_on_candidate_order() {
    let snapshots = vec![
        snapshot(
            "specs/current/first-user-story.md",
            ArtifactKind::UserStory,
            "US-001",
            &[("depends_on", sequence(&["US-002", "REQ-404"])), ("related", sequence(&["US-002"]))],
        ),
        snapshot(
            "specs/archive/001-old/user-story.md",
            ArtifactKind::UserStory,
            "US-002",
            &[("depends_on", sequence(&["US-001"]))],
        ),
        snapshot("specs/current/requirements.md", ArtifactKind::Requirements, "REQ-001", &[]),
    ];
    let forward: Vec<ArtifactCandidate> =
        snapshots.iter().cloned().map(ArtifactCandidate::from_snapshot).collect();
    let backward: Vec<ArtifactCandidate> = forward.iter().rev().cloned().collect();

    let first = CycleValidator::new(InMemorySource::new(forward)).validate();
    let second = CycleValidator::new(InMemorySource::new(backward)).validate();

    assert!(first.is_ok());
    assert_eq!(first, second);
}

#[test]
fn discovery_outcomes_pass_errors_through_and_report_candidates() {
    let error = || Err(ValidationError::Discovery("repository root unavailable".to_owned()));
    assert!(is_root_failure(&structural_outcome(error())));
    assert!(is_root_failure(&identity_outcome(error())));
    assert!(is_root_failure(&relationship_outcome(error())));
    assert!(is_root_failure(&reciprocal_outcome(error())));
    assert!(is_root_failure(&cycle_outcome(error())));

    let candidates = vec![ArtifactCandidate::from_snapshot(snapshot(
        "specs/current/story.md",
        ArtifactKind::UserStory,
        "US-001",
        &[("depends_on", sequence(&["REQ-404"]))],
    ))];
    let Ok(report) = relationship_outcome(Ok(candidates.clone())) else { panic!("report") };
    assert_eq!(report.artifacts().len(), 1);
    assert_eq!(report.status(), OverallStatus::Failure);
    let Some(result) = result_for(&report, "specs/current/story.md") else { panic!() };
    assert_eq!(relationship_diagnostics(result).len(), 1);
    let Ok(empty) = structural_outcome(Ok(Vec::new())) else { panic!("report") };
    assert_eq!(empty.status(), OverallStatus::Success);
    assert_eq!(
        cycle_outcome(Ok(candidates.clone())),
        CycleValidator::new(InMemorySource::new(candidates)).validate()
    );
}
