use sdd_validation::{
    validate_relationships, ArtifactKind, ArtifactPath, ArtifactSnapshot, Diagnostic,
    DocumentSnapshot, Metadata, MetadataValue,
};

fn snapshot(
    path: &str,
    kind: ArtifactKind,
    id: &str,
    relationships: &[(&str, MetadataValue)],
) -> ArtifactSnapshot {
    let Ok(path) = ArtifactPath::try_new(path) else { panic!("fixture path") };
    let mut metadata = Metadata::new();
    metadata.insert_scalar("id", id);
    for (field, value) in relationships {
        metadata.insert(field, value.clone());
    }
    ArtifactSnapshot::new(path, kind, metadata, DocumentSnapshot::empty())
}

fn scalar(value: &str) -> MetadataValue {
    MetadataValue::scalar(value)
}

fn sequence(values: &[&str]) -> MetadataValue {
    MetadataValue::sequence(values)
}

fn relationship_diagnostics(diagnostics: &[Diagnostic]) -> Vec<&Diagnostic> {
    diagnostics
        .iter()
        .filter(|diagnostic| diagnostic.rule_id().as_str().starts_with("ARTIFACT.RELATIONSHIP."))
        .collect()
}

#[test]
fn resolves_valid_relationships_across_all_expected_kind_rules() {
    let prd = snapshot("specs/archive/001-prd/PRD-001.md", ArtifactKind::Prd, "PRD-001", &[]);
    let epic = snapshot("specs/archive/002-epic/EPIC-001.md", ArtifactKind::Epic, "EPIC-001", &[]);
    let parent_story =
        snapshot("specs/archive/003-parent/user-story.md", ArtifactKind::UserStory, "US-001", &[]);
    let successor_story =
        snapshot("specs/current/user-story.md", ArtifactKind::UserStory, "US-002", &[]);
    let requirements = snapshot(
        "specs/current/requirements.md",
        ArtifactKind::Requirements,
        "REQ-001",
        &[("parent", scalar("US-001"))],
    );
    let design = snapshot(
        "specs/current/design.md",
        ArtifactKind::Design,
        "DES-001",
        &[("parent", scalar("US-001"))],
    );
    let adr = snapshot(
        "specs/current/ADR-001.md",
        ArtifactKind::Adr,
        "ADR-001",
        &[("supersedes", scalar("ADR-002"))],
    );
    let successor_adr =
        snapshot("specs/archive/004-adr/ADR-002.md", ArtifactKind::Adr, "ADR-002", &[]);
    let task = snapshot(
        "specs/current/tasks.md",
        ArtifactKind::Task,
        "TASK-001",
        &[("parent", scalar("US-001"))],
    );
    let story = snapshot(
        "specs/current/story.md",
        ArtifactKind::UserStory,
        "US-003",
        &[
            ("parent", scalar("PRD-001")),
            ("epic", scalar("EPIC-001")),
            ("depends_on", sequence(&["REQ-001"])),
            ("requires", sequence(&["DES-001"])),
            ("blockers", sequence(&["ADR-001"])),
            ("related", sequence(&["TASK-001"])),
            ("supersedes", scalar("US-001")),
            ("superseded_by", scalar("US-002")),
        ],
    );

    let diagnostics = validate_relationships(&[
        prd,
        epic,
        parent_story,
        successor_story,
        requirements,
        design,
        adr,
        successor_adr,
        task,
        story,
    ]);

    assert!(relationship_diagnostics(&diagnostics).is_empty());
}

#[test]
fn reports_missing_target_for_each_invalid_entry() {
    let source = snapshot(
        "specs/current/story.md",
        ArtifactKind::UserStory,
        "US-001",
        &[("depends_on", sequence(&["REQ-404", "REQ-405"])), ("requires", sequence(&["ADR-404"]))],
    );

    let diagnostics = validate_relationships(&[source]);
    let relationship_diagnostics = relationship_diagnostics(&diagnostics);

    assert_eq!(relationship_diagnostics.len(), 3);
    assert!(relationship_diagnostics.iter().all(|diagnostic| {
        diagnostic.rule_id().as_str() == "ARTIFACT.RELATIONSHIP.MISSING_TARGET"
    }));
    assert!(relationship_diagnostics.iter().any(|diagnostic| {
        diagnostic.message().contains("depends_on") && diagnostic.message().contains("REQ-404")
    }));
    assert!(relationship_diagnostics.iter().any(|diagnostic| {
        diagnostic.message().contains("requires") && diagnostic.message().contains("ADR-404")
    }));
}

#[test]
fn reports_wrong_kind_target() {
    let cases = [
        (ArtifactKind::UserStory, "parent", "PRD", ArtifactKind::Adr, "ADR-001", "ADR"),
        (ArtifactKind::UserStory, "epic", "EPIC", ArtifactKind::Requirements, "REQ-001", "requirements"),
        (ArtifactKind::Design, "parent", "US", ArtifactKind::Epic, "EPIC-001", "epic"),
        (ArtifactKind::Adr, "supersedes", "ADR", ArtifactKind::UserStory, "US-001", "user story"),
    ];
    for (source_kind, field, expected_kind, actual_kind, target_id, actual_kind_name) in cases {
        let source =
            snapshot("specs/current/source.md", source_kind, "US-002", &[(field, scalar(target_id))]);
        let target = snapshot("specs/current/target.md", actual_kind, target_id, &[]);

        let diagnostics = validate_relationships(&[source, target]);

        let found = diagnostics
            .iter()
            .find(|diagnostic| diagnostic.rule_id().as_str() == "ARTIFACT.RELATIONSHIP.WRONG_KIND");
        assert!(found.is_some());
        let Some(diagnostic) = found else { return };
        assert!(diagnostic.message().contains(expected_kind));
        assert!(diagnostic.message().contains(actual_kind_name));
        assert!(diagnostic.message().contains(field));
        assert!(diagnostic.message().contains(target_id));
    }
}

#[test]
fn skips_values_owned_by_structural_validation() {
    let source = snapshot(
        "specs/current/story.md",
        ArtifactKind::UserStory,
        "US-001",
        &[
            ("parent", MetadataValue::Null),
            ("depends_on", sequence(&[])),
            ("requires", sequence(&["", "TBD", "not-an-id"])),
            ("related", MetadataValue::Mapping),
        ],
    );

    let diagnostics = validate_relationships(&[source]);

    assert!(relationship_diagnostics(&diagnostics).is_empty());
}

#[test]
fn does_not_duplicate_relationship_findings_for_duplicate_target_ids() {
    let source = snapshot(
        "specs/current/story.md",
        ArtifactKind::UserStory,
        "US-001",
        &[("requires", sequence(&["REQ-001"]))],
    );
    let first_target =
        snapshot("specs/current/requirements.md", ArtifactKind::Requirements, "REQ-001", &[]);
    let second_target = snapshot(
        "specs/archive/001-old/requirements.md",
        ArtifactKind::Requirements,
        "REQ-001",
        &[],
    );

    let diagnostics = validate_relationships(&[source, first_target, second_target]);

    assert!(relationship_diagnostics(&diagnostics).is_empty());
}

#[test]
fn retains_unrelated_results_and_deterministic_diagnostics() {
    let invalid = snapshot(
        "specs/current/invalid.md",
        ArtifactKind::UserStory,
        "US-001",
        &[("depends_on", sequence(&["REQ-404"]))],
    );
    let unrelated =
        snapshot("specs/current/unrelated.md", ArtifactKind::Requirements, "REQ-001", &[]);

    let first = validate_relationships(&[invalid.clone(), unrelated.clone()]);
    let second = validate_relationships(&[unrelated, invalid]);

    assert_eq!(first, second);
    let diagnostics = relationship_diagnostics(&first);
    assert_eq!(diagnostics.len(), 1);
    let Some(diagnostic) = diagnostics.first() else { return };
    assert_eq!(diagnostic.path().as_str(), "specs/current/invalid.md");
}

#[test]
fn retains_missing_findings_when_unrelated_targets_are_added() {
    for extra_count in 0usize..5 {
        let source = snapshot(
            "specs/current/story.md",
            ArtifactKind::UserStory,
            "US-001",
            &[("depends_on", sequence(&["REQ-404"]))],
        );
        let expected = validate_relationships(std::slice::from_ref(&source));
        let mut expanded = vec![source];

        for index in 0..extra_count {
            let id = format!("REQ-{:03}", index + 100);
            let path = format!("specs/current/generated-{index}.md");
            expanded.push(snapshot(&path, ArtifactKind::Requirements, &id, &[]));
        }

        assert_eq!(validate_relationships(&expanded), expected);
    }
}

#[test]
fn relationship_finding_texts_are_exact() {
    let source = snapshot(
        "specs/current/story.md",
        ArtifactKind::UserStory,
        "US-001",
        &[("parent", scalar("ADR-001")), ("depends_on", sequence(&["REQ-404"]))],
    );
    let target = snapshot("specs/adr/ADR-001.md", ArtifactKind::Adr, "ADR-001", &[]);
    let diagnostics = validate_relationships(&[source, target]);
    let missing = diagnostics
        .iter()
        .find(|d| d.rule_id().as_str() == "ARTIFACT.RELATIONSHIP.MISSING_TARGET");
    assert_eq!(
        missing.map(|d| d.message()),
        Some("relationship `depends_on` references missing target `REQ-404`")
    );
    assert_eq!(
        missing.map(|d| d.remediation()),
        Some("add a recognized artifact with identifier `REQ-404` or correct the `depends_on` relationship")
    );
    let wrong = diagnostics
        .iter()
        .find(|d| d.rule_id().as_str() == "ARTIFACT.RELATIONSHIP.WRONG_KIND");
    assert_eq!(
        wrong.map(|d| d.message()),
        Some("relationship `parent` target `ADR-001` expects kind `PRD (PRD)` but resolved kind `ADR (ADR)`")
    );
    assert_eq!(
        wrong.map(|d| d.remediation()),
        Some("change `parent` to a recognized PRD (PRD) identifier")
    );
    assert!(wrong.is_some_and(|d| d.path().as_str() == "specs/current/story.md"));
}
