use sdd_validation::{
    validate_reciprocal_relationships, ArtifactKind, ArtifactPath, ArtifactSnapshot, Diagnostic,
    DocumentSnapshot, Metadata, MetadataValue,
};

fn snapshot(
    path: &str,
    kind: ArtifactKind,
    id: &str,
    relationships: &[(&str, MetadataValue)],
) -> ArtifactSnapshot {
    let Ok(path) = ArtifactPath::try_new(path) else { panic!("fixture path") };
    let mut metadata = Metadata::new();
    metadata.insert_scalar("id", id);
    for (field, value) in relationships {
        metadata.insert(field, value.clone());
    }
    ArtifactSnapshot::new(path, kind, metadata, DocumentSnapshot::empty())
}

fn sequence(values: &[&str]) -> MetadataValue {
    MetadataValue::sequence(values)
}

fn scalar(value: &str) -> MetadataValue {
    MetadataValue::scalar(value)
}

fn non_reciprocal(diagnostics: &[Diagnostic]) -> Vec<&Diagnostic> {
    diagnostics
        .iter()
        .filter(|diagnostic| diagnostic.rule_id().as_str() == "ARTIFACT.RELATIONSHIP.NON_RECIPROCAL")
        .collect()
}

#[test]
fn accepts_reciprocal_related_links_across_lifecycle_states() {
    let active = snapshot(
        "specs/current/user-story.md",
        ArtifactKind::UserStory,
        "US-001",
        &[("related", sequence(&["US-002"]))],
    );
    let archived = snapshot(
        "specs/archive/001-old/user-story.md",
        ArtifactKind::UserStory,
        "US-002",
        &[("related", sequence(&["US-001"]))],
    );

    let diagnostics = validate_reciprocal_relationships(&[active, archived]);

    assert!(non_reciprocal(&diagnostics).is_empty());
}

#[test]
fn reports_each_missing_related_counterpart_and_continues() {
    let source = snapshot(
        "specs/current/user-story.md",
        ArtifactKind::UserStory,
        "US-001",
        &[("related", sequence(&["US-002"]))],
    );
    let target = snapshot(
        "specs/archive/001-old/user-story.md",
        ArtifactKind::UserStory,
        "US-002",
        &[("related", sequence(&["US-003"]))],
    );
    let reciprocal_target = snapshot(
        "specs/archive/002-old/user-story.md",
        ArtifactKind::UserStory,
        "US-003",
        &[("related", sequence(&["US-002"]))],
    );

    let diagnostics = validate_reciprocal_relationships(&[source, target, reciprocal_target]);
    let findings = non_reciprocal(&diagnostics);

    assert_eq!(findings.len(), 1);
    let Some(finding) = findings.first() else { return };
    assert_eq!(finding.path().as_str(), "specs/current/user-story.md");
    assert!(finding.message().contains("related"));
    assert!(finding.message().contains("US-002"));
    assert!(finding.message().contains("reverse"));
    assert!(finding.remediation().contains("US-002"));
}

#[test]
fn reports_missing_counterparts_for_both_supersession_directions() {
    let superseder = snapshot(
        "specs/current/first-user-story.md",
        ArtifactKind::UserStory,
        "US-001",
        &[("supersedes", scalar("US-002"))],
    );
    let superseded_by = snapshot(
        "specs/archive/001-old/user-story.md",
        ArtifactKind::UserStory,
        "US-003",
        &[("superseded_by", scalar("US-004"))],
    );
    let target =
        snapshot("specs/archive/002-old/user-story.md", ArtifactKind::UserStory, "US-002", &[]);
    let successor =
        snapshot("specs/current/second-user-story.md", ArtifactKind::UserStory, "US-004", &[]);

    let diagnostics =
        validate_reciprocal_relationships(&[superseder, superseded_by, target, successor]);
    let findings = non_reciprocal(&diagnostics);

    assert_eq!(findings.len(), 2);
    assert!(findings.iter().any(|finding| {
        finding.message().contains("supersedes")
            && finding.message().contains("US-002")
            && finding.message().contains("superseded_by")
    }));
    assert!(findings.iter().any(|finding| {
        finding.message().contains("superseded_by")
            && finding.message().contains("US-004")
            && finding.message().contains("supersedes")
    }));
}

#[test]
fn accepts_both_reciprocal_supersession_directions() {
    let superseder = snapshot(
        "specs/current/first-user-story.md",
        ArtifactKind::UserStory,
        "US-001",
        &[("supersedes", scalar("US-002"))],
    );
    let historical = snapshot(
        "specs/archive/001-old/user-story.md",
        ArtifactKind::UserStory,
        "US-002",
        &[("superseded_by", scalar("US-001"))],
    );
    let successor = snapshot(
        "specs/current/second-user-story.md",
        ArtifactKind::UserStory,
        "US-003",
        &[("superseded_by", scalar("US-004"))],
    );
    let predecessor = snapshot(
        "specs/archive/002-old/user-story.md",
        ArtifactKind::UserStory,
        "US-004",
        &[("supersedes", scalar("US-003"))],
    );

    let diagnostics =
        validate_reciprocal_relationships(&[superseder, historical, successor, predecessor]);

    assert!(non_reciprocal(&diagnostics).is_empty());
}

#[test]
fn skips_structurally_invalid_and_unresolved_values() {
    let source = snapshot(
        "specs/current/user-story.md",
        ArtifactKind::UserStory,
        "US-001",
        &[
            ("related", scalar("US-002")),
            ("supersedes", sequence(&["US-003"])),
            ("superseded_by", scalar("TBD")),
            ("requires", sequence(&["REQ-404"])),
        ],
    );

    let diagnostics = validate_reciprocal_relationships(&[source]);

    assert!(non_reciprocal(&diagnostics).is_empty());
}

#[test]
fn skips_unresolved_missing_and_wrong_kind_targets() {
    let source = snapshot(
        "specs/current/user-story.md",
        ArtifactKind::UserStory,
        "US-001",
        &[
            ("related", sequence(&["US-404", "TBD", "not-an-id"])),
            ("supersedes", scalar("REQ-001")),
        ],
    );
    let wrong_kind =
        snapshot("specs/current/requirements.md", ArtifactKind::Requirements, "REQ-001", &[]);

    let diagnostics = validate_reciprocal_relationships(&[source, wrong_kind]);

    assert!(non_reciprocal(&diagnostics).is_empty());
}

#[test]
fn accepts_reordered_and_duplicate_reverse_membership() {
    let source = snapshot(
        "specs/current/user-story.md",
        ArtifactKind::UserStory,
        "US-001",
        &[("related", sequence(&["US-002"]))],
    );
    let target = snapshot(
        "specs/archive/001-old/user-story.md",
        ArtifactKind::UserStory,
        "US-002",
        &[("related", sequence(&["US-003", "US-001", "US-001"]))],
    );
    let unrelated = snapshot(
        "specs/current/other-user-story.md",
        ArtifactKind::UserStory,
        "US-003",
        &[("related", sequence(&["US-002"]))],
    );

    let diagnostics = validate_reciprocal_relationships(&[source, target, unrelated]);

    assert!(non_reciprocal(&diagnostics).is_empty());
}

#[test]
fn produces_deterministic_diagnostics_independent_of_snapshot_order() {
    let first = snapshot(
        "specs/current/first-user-story.md",
        ArtifactKind::UserStory,
        "US-001",
        &[("related", sequence(&["US-002"]))],
    );
    let second = snapshot(
        "specs/current/second-user-story.md",
        ArtifactKind::UserStory,
        "US-003",
        &[("supersedes", scalar("US-004"))],
    );
    let targets = [
        snapshot("specs/archive/001-old/user-story.md", ArtifactKind::UserStory, "US-002", &[]),
        snapshot("specs/archive/002-old/user-story.md", ArtifactKind::UserStory, "US-004", &[]),
    ];

    let first_result = validate_reciprocal_relationships(&[
        first.clone(),
        second.clone(),
        targets[0].clone(),
        targets[1].clone(),
    ]);
    let second_result =
        validate_reciprocal_relationships(&[targets[1].clone(), targets[0].clone(), second, first]);

    assert_eq!(first_result, second_result);
    assert_eq!(non_reciprocal(&first_result).len(), 2);
}

#[test]
fn non_reciprocal_finding_texts_are_exact() {
    let source = snapshot(
        "specs/current/user-story.md",
        ArtifactKind::UserStory,
        "US-001",
        &[("supersedes", scalar("US-002"))],
    );
    let target =
        snapshot("specs/archive/001-old/user-story.md", ArtifactKind::UserStory, "US-002", &[]);
    let diagnostics = validate_reciprocal_relationships(&[target, source]);
    assert_eq!(diagnostics.len(), 1);
    assert_eq!(diagnostics[0].path().as_str(), "specs/current/user-story.md");
    assert_eq!(
        diagnostics[0].message(),
        "relationship `supersedes` to `US-002` is not reciprocal; target must contain `US-001` \
         in its reverse `superseded_by` field"
    );
    assert_eq!(
        diagnostics[0].remediation(),
        "add `US-001` to `superseded_by` on artifact `US-002` to complete the reciprocal relationship"
    );
}

#[test]
fn reciprocal_findings_are_sorted_errors_whatever_the_snapshot_order() {
    let first = snapshot(
        "specs/b/user-story.md",
        ArtifactKind::UserStory,
        "US-002",
        &[("related", sequence(&["US-001", "US-003"]))],
    );
    let second = snapshot(
        "specs/a/user-story.md",
        ArtifactKind::UserStory,
        "US-001",
        &[("related", sequence(&["US-003"]))],
    );
    let third = snapshot("specs/c/user-story.md", ArtifactKind::UserStory, "US-003", &[]);
    let forward = validate_reciprocal_relationships(&[first.clone(), second.clone(), third.clone()]);
    let backward = validate_reciprocal_relationships(&[third, second, first]);
    assert_eq!(forward, backward);
    assert_eq!(forward.len(), 3);
    for finding in &forward {
        assert_eq!(finding.rule_id().as_str(), "ARTIFACT.RELATIONSHIP.NON_RECIPROCAL");
        assert_eq!(finding.severity(), sdd_validation::Severity::Error);
    }
    assert!(forward.windows(2).all(|w| {
        (w[0].path().as_str(), w[0].message()) <= (w[1].path().as_str(), w[1].message())
    }));
}
