use std::collections::BTreeSet;

use sdd_validation::{
    validate_relationship_cycles, ArtifactKind, ArtifactPath, ArtifactSnapshot, Diagnostic,
    DocumentSnapshot, Metadata, MetadataValue, Severity,
};

fn snapshot(
    path: &str,
    kind: ArtifactKind,
    id: &str,
    relationships: &[(&str, MetadataValue)],
) -> ArtifactSnapshot {
    let Ok(path) = ArtifactPath::try_new(path) else { panic!("fixture path") };
    let mut metadata = Metadata::new();
    metadata.insert_scalar("id", id);
    for (field, value) in relationships {
        metadata.insert(field, value.clone());
    }
    ArtifactSnapshot::new(path, kind, metadata, DocumentSnapshot::empty())
}

fn sequence(values: &[&str]) -> MetadataValue {
    MetadataValue::sequence(values)
}

fn cycle_diagnostics(snapshots: &[ArtifactSnapshot]) -> Vec<Diagnostic> {
    validate_relationship_cycles(snapshots)
        .into_iter()
        .filter(|diagnostic| diagnostic.rule_id().as_str() == "ARTIFACT.RELATIONSHIP.CYCLE")
        .collect()
}

fn three_cycle(field: &str) -> [ArtifactSnapshot; 3] {
    [
        snapshot(
            "specs/current/first-user-story.md",
            ArtifactKind::UserStory,
            "US-001",
            &[(field, sequence(&["US-002"]))],
        ),
        snapshot(
            "specs/current/second-user-story.md",
            ArtifactKind::UserStory,
            "US-002",
            &[(field, sequence(&["US-003"]))],
        ),
        snapshot(
            "specs/current/third-user-story.md",
            ArtifactKind::UserStory,
            "US-003",
            &[(field, sequence(&["US-001"]))],
        ),
    ]
}

#[test]
fn returns_no_findings_for_empty_and_clean_graphs() {
    let clean = snapshot("specs/current/user-story.md", ArtifactKind::UserStory, "US-001", &[]);

    assert!(cycle_diagnostics(&[]).is_empty());
    assert!(cycle_diagnostics(&[clean]).is_empty());
}

#[test]
fn detects_each_dependency_field_cycle() {
    for field in ["depends_on", "requires", "blockers"] {
        let diagnostics = cycle_diagnostics(&three_cycle(field));

        assert_eq!(diagnostics.len(), 3, "all source entries should identify the cycle");
        assert!(diagnostics.iter().all(|diagnostic| diagnostic.message().contains(field)));
    }
}

#[test]
fn normalizes_supersession_directions_into_one_cycle_graph() {
    let first = snapshot(
        "specs/current/first-user-story.md",
        ArtifactKind::UserStory,
        "US-001",
        &[("supersedes", MetadataValue::scalar("US-002"))],
    );
    let second =
        snapshot("specs/archive/001-old/user-story.md", ArtifactKind::UserStory, "US-002", &[]);
    let third = snapshot(
        "specs/archive/002-old/user-story.md",
        ArtifactKind::UserStory,
        "US-003",
        &[
            ("superseded_by", MetadataValue::scalar("US-002")),
            ("supersedes", MetadataValue::scalar("US-001")),
        ],
    );

    let diagnostics = cycle_diagnostics(&[first, second, third]);

    assert_eq!(diagnostics.len(), 3);
    assert!(diagnostics.iter().any(|diagnostic| diagnostic.message().contains("supersedes")));
    assert!(diagnostics.iter().any(|diagnostic| diagnostic.message().contains("superseded_by")));
}

#[test]
fn reports_target_valid_self_loop() {
    let source = snapshot(
        "specs/current/user-story.md",
        ArtifactKind::UserStory,
        "US-001",
        &[("depends_on", sequence(&["US-001"]))],
    );

    let diagnostics = cycle_diagnostics(&[source]);

    assert_eq!(diagnostics.len(), 1);
    let Some(diagnostic) = diagnostics.first() else { return };
    assert!(diagnostic.message().contains("US-001"));
}

#[test]
fn excludes_wrong_kind_self_loop() {
    let source = snapshot(
        "specs/current/user-story.md",
        ArtifactKind::UserStory,
        "US-001",
        &[("parent", MetadataValue::scalar("US-001"))],
    );

    assert!(cycle_diagnostics(&[source]).is_empty());
}

#[test]
fn isolates_relationship_families() {
    let story = snapshot(
        "specs/current/user-story.md",
        ArtifactKind::UserStory,
        "US-001",
        &[("parent", MetadataValue::scalar("PRD-001"))],
    );
    let prd = snapshot(
        "specs/prds/PRD-001.md",
        ArtifactKind::Prd,
        "PRD-001",
        &[("depends_on", sequence(&["US-001"]))],
    );

    assert!(cycle_diagnostics(&[story, prd]).is_empty());
}

#[test]
fn excludes_ineligible_relationship_values() {
    let source = snapshot(
        "specs/current/user-story.md",
        ArtifactKind::UserStory,
        "US-001",
        &[
            ("depends_on", sequence(&["", "TBD", "REQ-404"])),
            ("parent", MetadataValue::scalar("ADR-001")),
        ],
    );
    let wrong_kind_target = snapshot("specs/adr/ADR-001.md", ArtifactKind::Adr, "ADR-001", &[]);

    assert!(cycle_diagnostics(&[source, wrong_kind_target]).is_empty());
}

#[test]
fn deduplicates_rotations_and_retains_overlapping_cycles() {
    let first = snapshot(
        "specs/current/first-user-story.md",
        ArtifactKind::UserStory,
        "US-001",
        &[("depends_on", sequence(&["US-002"]))],
    );
    let second = snapshot(
        "specs/current/second-user-story.md",
        ArtifactKind::UserStory,
        "US-002",
        &[("depends_on", sequence(&["US-003", "US-004"]))],
    );
    let third = snapshot(
        "specs/current/third-user-story.md",
        ArtifactKind::UserStory,
        "US-003",
        &[("depends_on", sequence(&["US-001"]))],
    );
    let fourth = snapshot(
        "specs/current/fourth-user-story.md",
        ArtifactKind::UserStory,
        "US-004",
        &[("depends_on", sequence(&["US-001"]))],
    );

    let diagnostics =
        cycle_diagnostics(&[fourth.clone(), third.clone(), first.clone(), second.clone()]);
    let identities = diagnostics
        .iter()
        .filter_map(|diagnostic| diagnostic.message().split_once("cycle `"))
        .filter_map(|(_, identity)| identity.strip_suffix('`'))
        .map(str::to_owned)
        .collect::<BTreeSet<_>>();

    assert_eq!(diagnostics.len(), 6);
    assert_eq!(identities.len(), 2, "the two directed cycles need distinct identities");
    assert_eq!(diagnostics, cycle_diagnostics(&[first, second, third, fourth]));
}

#[test]
fn orders_source_owned_findings_deterministically() {
    let first = snapshot(
        "specs/current/z-user-story.md",
        ArtifactKind::UserStory,
        "US-002",
        &[("depends_on", sequence(&["US-001"]))],
    );
    let second = snapshot(
        "specs/current/a-user-story.md",
        ArtifactKind::UserStory,
        "US-001",
        &[("depends_on", sequence(&["US-002"]))],
    );

    let diagnostics = cycle_diagnostics(&[first, second]);

    assert_eq!(diagnostics.len(), 2);
    let Some(first_diagnostic) = diagnostics.first() else { return };
    let Some(second_diagnostic) = diagnostics.get(1) else { return };
    assert_eq!(first_diagnostic.path().as_str(), "specs/current/a-user-story.md");
    assert_eq!(second_diagnostic.path().as_str(), "specs/current/z-user-story.md");
    assert!(diagnostics.iter().all(|diagnostic| {
        diagnostic.severity() == Severity::Error
            && !diagnostic.remediation().is_empty()
            && diagnostic.message().contains("dependency")
    }));
}

#[test]
fn preserves_cycle_report_for_snapshot_rotations() {
    let [first, second, third] = three_cycle("depends_on");
    let expected = cycle_diagnostics(&[first.clone(), second.clone(), third.clone()]);
    let rotations = [
        vec![second.clone(), third.clone(), first.clone()],
        vec![third.clone(), first.clone(), second.clone()],
        vec![first, second, third],
    ];
    for rotation in rotations {
        assert_eq!(cycle_diagnostics(&rotation), expected);
    }
}

#[test]
fn cycle_message_names_the_rotation_from_the_smallest_identifier() {
    let [first, second, third] = three_cycle("depends_on");
    let diagnostics = cycle_diagnostics(&[third, first, second]);
    assert!(diagnostics
        .iter()
        .all(|d| d.message().ends_with(
            "cycle `dependency:US-001-depends_on-US-002,US-002-depends_on-US-003,US-003-depends_on-US-001`"
        )));
}

#[test]
fn every_cycle_finding_is_a_sorted_error_on_a_snapshot_path() {
    let snapshots = three_cycle("depends_on");
    let findings = validate_relationship_cycles(&snapshots);
    assert_eq!(findings.len(), 3);
    let paths: BTreeSet<&str> = snapshots.iter().map(|s| s.path().as_str()).collect();
    for finding in &findings {
        assert_eq!(finding.rule_id().as_str(), "ARTIFACT.RELATIONSHIP.CYCLE");
        assert_eq!(finding.severity(), Severity::Error);
        assert!(paths.contains(finding.path().as_str()));
    }
    assert!(findings.windows(2).all(|w| {
        (w[0].path().as_str(), w[0].message()) <= (w[1].path().as_str(), w[1].message())
    }));
    assert!(validate_relationship_cycles(&[]).is_empty());
}
