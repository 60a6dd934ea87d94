use sdd_validation::{
    validate_artifact, ArtifactKind, ArtifactPath, ArtifactResult, ArtifactSnapshot,
    ArtifactStatus, ChecklistItem, Diagnostic, DocumentSnapshot, FeatureSnapshot, Heading,
    Location, Metadata, MetadataValue, OverallStatus, Severity, SourceLine, ValidationReport,
};

fn required_fields(kind: ArtifactKind) -> &'static [&'static str] {
    match kind {
        ArtifactKind::Prd => &[
            "id", "title", "type", "scope", "status", "created", "updated", "owner", "parent",
            "supersedes", "related",
        ],
        ArtifactKind::Epic
        | ArtifactKind::Requirements
        | ArtifactKind::Design
        | ArtifactKind::Task => &[
            "id", "title", "type", "status", "created", "updated", "owner", "parent",
            "depends_on", "requires", "blockers", "related",
        ],
        ArtifactKind::UserStory => &[
            "id", "title", "type", "status", "created", "updated", "owner", "parent", "epic",
            "feature", "depends_on", "requires", "blockers", "related",
        ],
        ArtifactKind::Gherkin => &[],
        ArtifactKind::Adr => &[
            "id", "title", "type", "status", "created", "updated", "owner", "supersedes",
            "superseded_by", "related",
        ],
    }
}

fn required_headings(kind: ArtifactKind) -> &'static [&'static str] {
    match kind {
        ArtifactKind::Prd => &[
            "product requirements document", "vision and problem", "target personas and journeys",
            "success metrics", "functional scope and epics", "non-functional requirements",
            "assumptions and out of scope", "open questions", "decision log", "review checklist",
        ],
        ArtifactKind::Epic => &[
            "epic brief", "outcome statement", "capability boundaries",
            "candidate vertical slices", "success criteria", "dependencies", "open questions",
            "readiness checklist",
        ],
        ArtifactKind::UserStory => &[
            "user story", "story card", "context and value", "business rules", "examples",
            "acceptance criteria", "scope boundaries", "dependencies", "open questions",
            "invest check",
        ],
        ArtifactKind::Requirements => &[
            "requirements", "purpose and actors", "preconditions", "inputs and outputs",
            "functional requirements", "postconditions and invariants",
            "edge and failure behavior", "quality requirements", "traceability",
        ],
        ArtifactKind::Design => &[
            "design", "context and constraints", "proposed design",
            "components and responsibilities", "interfaces and contracts", "data and state flow",
            "security, performance, and operations", "alternatives considered",
            "risks and open decisions", "verification approach",
        ],
        ArtifactKind::Adr => {
            &["context", "decision", "alternatives considered", "consequences", "follow-up actions"]
        }
        ArtifactKind::Task => &[
            "tasks", "implementation approach", "ordered tasks", "test and verification plan",
            "rollout and recovery", "definition of done",
        ],
        ArtifactKind::Gherkin => &[],
    }
}

fn has_checklist(kind: ArtifactKind) -> bool {
    matches!(kind, ArtifactKind::Prd | ArtifactKind::Epic | ArtifactKind::UserStory | ArtifactKind::Task)
}

fn path_for(kind: ArtifactKind) -> &'static str {
    match kind {
        ArtifactKind::Prd => "specs/prds/PRD-001.md",
        ArtifactKind::Epic => "specs/prds/PRD-001-epics/EPIC-001.md",
        ArtifactKind::UserStory => "specs/feature/user-story.md",
        ArtifactKind::Gherkin => "specs/feature/scenarios.feature",
        ArtifactKind::Requirements => "specs/feature/requirements.md",
        ArtifactKind::Design => "specs/feature/design.md",
        ArtifactKind::Adr => "specs/adr/ADR-001.md",
        ArtifactKind::Task => "specs/feature/tasks.md",
    }
}

fn fixture_path(value: &str) -> ArtifactPath {
    match ArtifactPath::try_new(value) {
        Ok(path) => path,
        Err(_) => panic!("fixture path"),
    }
}

fn valid_snapshot(kind: ArtifactKind, status: &str) -> ArtifactSnapshot {
    let mut metadata = Metadata::new();
    let expected_id = format!("{}-001", kind.id_prefix().unwrap_or("NO"));
    for &field in required_fields(kind) {
        match field {
            "id" => metadata.insert_scalar(field, &expected_id),
            "type" => metadata.insert_scalar(field, kind.expected_type().unwrap_or_default()),
            "status" => metadata.insert_scalar(field, status),
            "parent" if kind == ArtifactKind::Prd => metadata.insert(field, MetadataValue::Null),
            "parent" => {
                let parent = match kind {
                    ArtifactKind::Epic | ArtifactKind::UserStory => "PRD-001",
                    _ => "US-001",
                };
                metadata.insert_scalar(field, parent);
            }
            "epic" => metadata.insert_scalar(field, "EPIC-001"),
            "feature" => metadata.insert_scalar(field, "feature-name"),
            "depends_on" | "requires" | "related" | "blockers" => {
                metadata.insert_sequence(field, &[]);
            }
            "supersedes" | "superseded_by" => metadata.insert(field, MetadataValue::Null),
            "scope" => metadata.insert_scalar(field, "project"),
            "created" | "updated" => metadata.insert_scalar(field, "2026-09-04"),
            _ => metadata.insert_scalar(field, "concrete-value"),
        }
    }
    let headings = required_headings(kind)
        .iter()
        .enumerate()
        .map(|(index, heading)| Heading::new(2, heading, index + 1))
        .collect();
    let checklist_items = if has_checklist(kind) {
        vec![ChecklistItem::new(true, "complete", 20)]
    } else {
        Vec::new()
    };
    let lines = vec![SourceLine::new(1, "concrete artifact")];
    ArtifactSnapshot::new(
        fixture_path(path_for(kind)),
        kind,
        metadata,
        DocumentSnapshot::new(lines, headings, checklist_items, None),
    )
}

fn has_rule(diagnostics: &[Diagnostic], suffix: &str) -> bool {
    diagnostics.iter().any(|diagnostic| diagnostic.rule_id().as_str().ends_with(suffix))
}

#[test]
fn accepts_canonical_type_values() {
    for kind in [
        ArtifactKind::Prd,
        ArtifactKind::Epic,
        ArtifactKind::UserStory,
        ArtifactKind::Requirements,
        ArtifactKind::Design,
        ArtifactKind::Adr,
        ArtifactKind::Task,
    ] {
        let diagnostics = validate_artifact(&valid_snapshot(kind, "approved"));
        assert!(!has_rule(&diagnostics, "TYPE_VALUE"));
    }
}

#[test]
fn valid_snapshots_of_every_markdown_kind_are_clean() {
    for kind in ArtifactKind::ALL {
        if kind == ArtifactKind::Gherkin {
            continue;
        }
        let diagnostics = validate_artifact(&valid_snapshot(kind, "approved"));
        assert_eq!(diagnostics, Vec::new(), "{kind:?}");
    }
}

#[test]
fn accepts_superseded_lifecycle_status() {
    let diagnostics = validate_artifact(&valid_snapshot(ArtifactKind::UserStory, "superseded"));
    assert!(!has_rule(&diagnostics, "STATUS_VALUE"));
}

#[test]
fn rejects_unknown_lifecycle_status() {
    let diagnostics = validate_artifact(&valid_snapshot(ArtifactKind::UserStory, "finished"));
    let found: Vec<&Diagnostic> = diagnostics
        .iter()
        .filter(|d| d.rule_id().as_str() == "ARTIFACT.USER-STORY.STATUS_VALUE")
        .collect();
    assert_eq!(found.len(), 1);
    assert_eq!(found[0].message(), "metadata `status` has unsupported value `finished`");
    assert_eq!(found[0].severity(), Severity::Error);
}

#[test]
fn retains_multiple_violations_for_one_artifact() {
    let snapshot = ArtifactSnapshot::new(
        fixture_path("specs/feature/user-story.md"),
        ArtifactKind::UserStory,
        Metadata::new(),
        DocumentSnapshot::empty(),
    );
    let diagnostics = validate_artifact(&snapshot);

    assert!(diagnostics.len() > 4, "missing structural violations were not aggregated");
    assert!(diagnostics.windows(2).all(|pair| pair[0].rule_id() <= pair[1].rule_id()));
}

#[test]
fn reports_unresolved_and_template_markers() {
    let mut metadata = Metadata::new();
    metadata.insert_scalar("id", "US-001");
    metadata.insert_scalar("owner", "TBD");
    metadata.insert_scalar("title", "{{title}}");
    let snapshot = ArtifactSnapshot::new(
        fixture_path("specs/feature/user-story.md"),
        ArtifactKind::UserStory,
        metadata,
        DocumentSnapshot::new(vec![SourceLine::new(3, "## TBD")], Vec::new(), Vec::new(), None),
    );
    let diagnostics = validate_artifact(&snapshot);

    assert!(has_rule(&diagnostics, "PLACEHOLDER_UNRESOLVED"));
    assert!(has_rule(&diagnostics, "PLACEHOLDER_TEMPLATE"));
}

#[test]
fn orders_types_then_identifiers_then_paths() {
    let mut results = Vec::new();
    for kind in ArtifactKind::ALL {
        if kind == ArtifactKind::Gherkin {
            continue;
        }
        results.push(ArtifactResult::from_snapshot(&valid_snapshot(kind, "approved")));
    }
    results.reverse();
    let report = ValidationReport::from_results(results);
    let kinds: Vec<ArtifactKind> = report.artifacts().iter().filter_map(ArtifactResult::kind).collect();

    assert_eq!(
        kinds,
        vec![
            ArtifactKind::Prd,
            ArtifactKind::Epic,
            ArtifactKind::UserStory,
            ArtifactKind::Requirements,
            ArtifactKind::Design,
            ArtifactKind::Adr,
            ArtifactKind::Task,
        ]
    );
}

#[test]
fn report_order_is_deterministic() {
    let inputs: [&[usize]; 4] = [&[], &[7, 0, 3, 3, 1], &[2, 2, 2], &[6, 5, 4, 3, 2, 1, 0, 7, 0]];
    for input in inputs {
        let original: Vec<ArtifactResult> = input
            .iter()
            .map(|value| {
                let kind = ArtifactKind::ALL.get(*value).copied().unwrap_or(ArtifactKind::Task);
                ArtifactResult::from_snapshot(&valid_snapshot(kind, "approved"))
            })
            .collect();
        let mut reversed = original.clone();
        reversed.reverse();
        assert_eq!(
            ValidationReport::from_results(original),
            ValidationReport::from_results(reversed)
        );
    }
}

#[test]
fn warning_finding_fails_artifact_and_report() {
    let path = fixture_path("specs/feature/user-story.md");
    let warning = Diagnostic::new(
        path.clone(),
        None,
        "ARTIFACT.USER-STORY.TEST_WARNING",
        Severity::Warning,
        "warning finding",
        "resolve the warning",
    );
    let snapshot =
        valid_snapshot(ArtifactKind::UserStory, "approved").with_parser_diagnostics(vec![warning]);
    let result = ArtifactResult::from_snapshot(&snapshot);
    let report = ValidationReport::from_results(vec![result.clone()]);

    assert_eq!(result.status(), ArtifactStatus::Diagnostic);
    assert_eq!(result.violations().first().map(Diagnostic::severity), Some(Severity::Warning));
    assert_eq!(report.status(), OverallStatus::Failure);
}

#[test]
fn reports_metadata_shapes_and_reference_prefixes() {
    let mut metadata = Metadata::new();
    metadata.insert("id", MetadataValue::Mapping);
    metadata.insert("type", MetadataValue::sequence(&["wrong"]));
    metadata.insert("status", MetadataValue::Null);
    metadata.insert_scalar("parent", "EPIC-001");
    metadata.insert_scalar("epic", "US-001");
    metadata.insert_scalar("related", "not-an-id");
    let Some(path) = ArtifactPath::try_new("specs/unknown.md").ok() else { return };
    let snapshot = ArtifactSnapshot::new(
        path,
        ArtifactKind::UserStory,
        metadata,
        DocumentSnapshot::new(
            vec![SourceLine::new(4, "<placeholder> YYYY-MM-DD NNN")],
            vec![Heading::new(2, "Invest Check", 2)],
            Vec::new(),
            None,
        ),
    );
    let diagnostics = validate_artifact(&snapshot);

    assert!(has_rule(&diagnostics, "METADATA_SHAPE"));
    assert!(has_rule(&diagnostics, "REFERENCE_PARENT"));
    assert!(has_rule(&diagnostics, "REFERENCE_SYNTAX"));
    assert!(has_rule(&diagnostics, "PLACEHOLDER_TEMPLATE"));
    assert!(diagnostics
        .iter()
        .all(|diagnostic| diagnostic.rule_id().as_str().starts_with("ARTIFACT.UNKNOWN")));
}

#[test]
fn reports_empty_required_checklist_section() {
    let mut metadata = Metadata::new();
    metadata.insert_scalar("id", "TASK-001");
    let Some(path) = ArtifactPath::try_new("specs/feature/tasks.md").ok() else { return };
    let snapshot = ArtifactSnapshot::new(
        path,
        ArtifactKind::Task,
        metadata,
        DocumentSnapshot::new(
            Vec::new(),
            vec![Heading::new(2, "Definition Of Done", 1)],
            Vec::new(),
            None,
        ),
    );
    let diagnostics = validate_artifact(&snapshot);

    assert!(has_rule(&diagnostics, "CHECKLIST_ITEM"));
}

#[test]
fn reports_missing_gherkin_structure() {
    let Some(path) = ArtifactPath::try_new("specs/feature/scenarios.feature").ok() else {
        return;
    };
    let feature = FeatureSnapshot::new(None, None, None, 0, false, false, false);
    let document = DocumentSnapshot::new(Vec::new(), Vec::new(), Vec::new(), Some(feature));
    let snapshot = ArtifactSnapshot::new(path, ArtifactKind::Gherkin, Metadata::new(), document);
    let diagnostics = validate_artifact(&snapshot);

    assert!(has_rule(&diagnostics, "HEADER_PARENT"));
    assert!(has_rule(&diagnostics, "HEADER_STATUS"));
    assert!(has_rule(&diagnostics, "FEATURE_REQUIRED"));
    assert!(has_rule(&diagnostics, "SCENARIO_REQUIRED"));
    assert_eq!(
        diagnostics
            .iter()
            .filter(|diagnostic| diagnostic.rule_id().as_str().ends_with("STEP_REQUIRED"))
            .count(),
        3
    );
}

#[test]
fn complete_gherkin_feature_is_clean() {
    let path = fixture_path("specs/feature/scenarios.feature");
    let feature = FeatureSnapshot::new(
        Some("US-001".to_owned()),
        Some("approved".to_owned()),
        Some("Validate".to_owned()),
        1,
        true,
        true,
        true,
    );
    let document = DocumentSnapshot::new(Vec::new(), Vec::new(), Vec::new(), Some(feature));
    let snapshot = ArtifactSnapshot::new(path, ArtifactKind::Gherkin, Metadata::new(), document);
    assert_eq!(validate_artifact(&snapshot), Vec::new());
}

#[test]
fn missing_field_message_names_field_and_kind() {
    let mut metadata = Metadata::new();
    metadata.insert_scalar("id", "ADR-001");
    let snapshot = ArtifactSnapshot::new(
        fixture_path("specs/adr/ADR-001.md"),
        ArtifactKind::Adr,
        metadata,
        DocumentSnapshot::empty(),
    );
    let diagnostics = validate_artifact(&snapshot);
    let title = diagnostics
        .iter()
        .find(|d| d.message() == "required metadata field `title` is missing");
    assert!(title.is_some());
    assert_eq!(title.map(|d| d.remediation()), Some("add `title` to the Adr frontmatter"));
    assert_eq!(title.map(|d| d.rule_id().as_str()), Some("ARTIFACT.ADR.METADATA_REQUIRED"));
}

#[test]
fn parser_findings_are_kept_and_sorted_with_rule_findings() {
    let path = fixture_path("specs/feature/user-story.md");
    let parser = Diagnostic::new(
        path.clone(),
        Some(Location::new(1, Some(1))),
        "ARTIFACT.USER-STORY.FRONTMATTER_PARSE",
        Severity::Error,
        "bad",
        "fix",
    );
    let snapshot = valid_snapshot(ArtifactKind::UserStory, "approved")
        .with_parser_diagnostics(vec![parser.clone()]);
    assert_eq!(validate_artifact(&snapshot), vec![parser]);
}
