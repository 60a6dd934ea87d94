use sdd_validation::{
    ArtifactId, ArtifactKind, ArtifactPath, ArtifactSnapshot, Diagnostic, DocumentSnapshot,
    IdentifierError, Metadata, MetadataValue, PathError, Severity,
};

fn path(value: &str) -> Option<ArtifactPath> {
    ArtifactPath::try_new(value).ok()
}

#[test]
fn identifies_every_kind_and_canonical_path() {
    let paths = [
        ("specs/user/user-story.md", ArtifactKind::UserStory),
        ("specs/user/scenarios.feature", ArtifactKind::Gherkin),
        ("specs/user/requirements.md", ArtifactKind::Requirements),
        ("specs/user/design.md", ArtifactKind::Design),
        ("specs/user/tasks.md", ArtifactKind::Task),
        ("specs/adr/ADR-001.md", ArtifactKind::Adr),
        ("specs/prds/PRD-001.md", ArtifactKind::Prd),
        ("specs/prds/PRD-001-epics/EPIC-001.md", ArtifactKind::Epic),
    ];

    assert!(
        paths.iter().all(|(value, expected)| ArtifactKind::from_path(value) == Some(*expected))
    );
    assert_eq!(
        ArtifactKind::from_path("specs/archive/001-old/user-story.md"),
        Some(ArtifactKind::UserStory)
    );
    assert_eq!(ArtifactKind::from_path("specs/archive/old/user-story.md"), None);
    assert_eq!(ArtifactKind::from_path("specs/not-an-artifact.md"), None);
    assert_eq!(ArtifactKind::from_path("specs/prds/PRD-01.md"), None);
    assert_eq!(ArtifactKind::from_path("specs/adr/ADR-01.md"), None);
    assert_eq!(ArtifactKind::from_path("specs/prds/PRD-01-epics/EPIC-001.md"), None);
    assert_eq!(ArtifactKind::from_path("specs/prds/PRD-001-epics/EPIC-01.md"), None);
}

#[test]
fn validates_identifier_and_path_invariants() {
    let Ok(identifier) = ArtifactId::try_new(ArtifactKind::Prd, "PRD-001") else { return };

    assert_eq!(identifier.as_str(), "PRD-001");
    assert!(matches!(
        ArtifactId::try_new(ArtifactKind::Prd, "REQ-001"),
        Err(IdentifierError::Invalid { .. })
    ));
    assert!(matches!(
        ArtifactId::try_new(ArtifactKind::Prd, "PRD-01"),
        Err(IdentifierError::Invalid { .. })
    ));
    assert!(matches!(
        ArtifactId::try_new(ArtifactKind::Gherkin, "GHERKIN-001"),
        Err(IdentifierError::UnsupportedKind)
    ));
    assert_eq!(PathError::Empty.message(), "artifact path is empty");
    assert_eq!(
        PathError::NotRepositoryRelative.message(),
        "artifact path is not repository-relative"
    );
    assert!(matches!(ArtifactPath::try_new(""), Err(PathError::Empty)));
    assert!(matches!(
        ArtifactPath::try_new("/specs/a.md"),
        Err(PathError::NotRepositoryRelative)
    ));
    assert!(matches!(
        ArtifactPath::try_new("specs/../a.md"),
        Err(PathError::NotRepositoryRelative)
    ));
    assert!(matches!(
        ArtifactPath::try_new("specs\\a.md"),
        Err(PathError::NotRepositoryRelative)
    ));
    assert_eq!(
        IdentifierError::UnsupportedKind.message(),
        "artifact kind does not use an identifier"
    );
    assert_eq!(
        IdentifierError::Invalid { expected_prefix: "PRD" }.message(),
        "identifier must use PRD-NNN"
    );
}

#[test]
fn stores_metadata_and_parser_findings() {
    let Some(path) = path("specs/user/user-story.md") else { return };
    let mut metadata = Metadata::new();
    metadata.insert_scalar("title", "Title");
    metadata.insert_sequence("related", &["ADR-001"]);
    metadata.insert("nested", MetadataValue::Mapping);
    let document = DocumentSnapshot::empty();
    let finding = Diagnostic::new(
        path.clone(),
        None,
        "ARTIFACT.USER-STORY.TEST",
        Severity::Warning,
        "finding",
        "fix finding",
    );
    let snapshot =
        ArtifactSnapshot::new(path.clone(), ArtifactKind::UserStory, metadata, document)
            .with_parser_diagnostics(vec![finding]);

    assert_eq!(snapshot.path().as_str(), path.as_str());
    assert_eq!(snapshot.kind(), ArtifactKind::UserStory);
    assert_eq!(snapshot.id(), None);
    assert!(
        matches!(snapshot.metadata().get("title"), Some(MetadataValue::Scalar(value)) if value == "Title")
    );
    assert!(
        matches!(snapshot.metadata().get("related"), Some(MetadataValue::Sequence(values)) if values == &["ADR-001"])
    );
    assert_eq!(snapshot.metadata().iter().len(), 3);
    assert_eq!(snapshot.document(), &DocumentSnapshot::empty());
    assert_eq!(snapshot.parser_diagnostics().len(), 1);
    assert_eq!(MetadataValue::scalar("value"), MetadataValue::Scalar("value".to_string()));
    assert_eq!(
        MetadataValue::sequence(&["one", "two"]),
        MetadataValue::Sequence(vec!["one".to_string(), "two".to_string()])
    );
}

#[test]
fn exposes_kind_contracts() {
    assert_eq!(ArtifactKind::ALL.len(), 8);
    assert_eq!(ArtifactKind::Prd.token(), "prd");
    assert_eq!(ArtifactKind::Gherkin.expected_type(), None);
    assert_eq!(ArtifactKind::Gherkin.id_prefix(), None);
    assert_eq!(ArtifactKind::Task.expected_type(), Some("implementation-tasks"));
    assert_eq!(ArtifactKind::Adr.id_prefix(), Some("ADR"));
}

#[test]
fn metadata_iterates_in_name_order_and_replaces_values() {
    let mut metadata = Metadata::new();
    metadata.insert_scalar("status", "draft");
    metadata.insert_scalar("id", "US-001");
    metadata.insert_scalar("title", "Title");
    metadata.insert_scalar("status", "approved");
    let names: Vec<&str> = metadata.iter().iter().map(|(name, _)| name.as_str()).collect();

    assert_eq!(names, vec!["id", "status", "title"]);
    assert_eq!(metadata.get("status"), Some(&MetadataValue::scalar("approved")));
    assert_eq!(metadata.get("missing"), None);
}

#[test]
fn snapshot_identifier_comes_from_a_valid_scalar_id() {
    let Some(path) = path("specs/prds/PRD-001.md") else { return };
    let mut valid = Metadata::new();
    valid.insert_scalar("id", "PRD-001");
    let mut wrong_prefix = Metadata::new();
    wrong_prefix.insert_scalar("id", "US-001");
    let mut sequence = Metadata::new();
    sequence.insert_sequence("id", &["PRD-001"]);

    let with_id = ArtifactSnapshot::new(path.clone(), ArtifactKind::Prd, valid, DocumentSnapshot::empty());
    let without = ArtifactSnapshot::new(path.clone(), ArtifactKind::Prd, wrong_prefix, DocumentSnapshot::empty());
    let shaped = ArtifactSnapshot::new(path, ArtifactKind::Prd, sequence, DocumentSnapshot::empty());

    assert_eq!(with_id.id().map(ArtifactId::as_str), Some("PRD-001"));
    assert_eq!(without.id(), None);
    assert_eq!(shaped.id(), None);
}

#[test]
fn rejects_empty_and_dot_segments() {
    assert!(matches!(ArtifactPath::try_new("specs//a.md"), Err(PathError::NotRepositoryRelative)));
    assert!(matches!(ArtifactPath::try_new("specs/./a.md"), Err(PathError::NotRepositoryRelative)));
    assert!(matches!(ArtifactPath::try_new("specs/a.md/"), Err(PathError::NotRepositoryRelative)));
    assert!(ArtifactPath::try_new("specs/.hidden/a.md").is_ok());
}

#[test]
fn parser_diagnostics_are_added_after_earlier_ones() {
    let Some(path) = path("specs/user/user-story.md") else { return };
    let first = Diagnostic::new(
        path.clone(),
        None,
        "ARTIFACT.USER-STORY.FIRST",
        Severity::Error,
        "first",
        "fix first",
    );
    let second = Diagnostic::new(
        path.clone(),
        None,
        "ARTIFACT.USER-STORY.SECOND",
        Severity::Warning,
        "second",
        "fix second",
    );
    let snapshot = ArtifactSnapshot::new(
        path.clone(),
        ArtifactKind::UserStory,
        Metadata::new(),
        DocumentSnapshot::empty(),
    )
    .with_parser_diagnostics(vec![first.clone()])
    .with_parser_diagnostics(vec![second.clone()]);

    assert_eq!(snapshot.parser_diagnostics(), &[first, second]);
    assert_eq!(snapshot.path().as_str(), path.as_str());
    assert_eq!(snapshot.kind(), ArtifactKind::UserStory);
}

#[test]
fn metadata_lists_names_once_in_ascending_order() {
    let mut metadata = Metadata::default();
    assert_eq!(metadata, Metadata::new());
    assert_eq!(metadata.iter().len(), 0);
    metadata.insert_scalar("title", "Title");
    metadata.insert_sequence("related", &["ADR-001"]);
    metadata.insert("nested", MetadataValue::Mapping);
    let names: Vec<&str> = metadata.iter().iter().map(|(name, _)| name.as_str()).collect();
    assert_eq!(names, vec!["nested", "related", "title"]);

    metadata.insert_scalar("title", "Other");
    assert_eq!(metadata.iter().len(), 3);
    assert!(
        matches!(metadata.get("title"), Some(MetadataValue::Scalar(value)) if value == "Other")
    );
    metadata.insert_scalar("alpha", "First");
    assert_eq!(metadata.iter().len(), 4);
    assert_eq!(metadata.iter()[0].0, "alpha");
    assert_eq!(metadata.clone(), metadata);
}
