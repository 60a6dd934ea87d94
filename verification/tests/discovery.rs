use sdd_validation::{
    candidate_for_read, discovered_path, is_excluded, sort_paths, ArtifactKind, ArtifactPath,
    ValidationError,
};

#[test]
fn templates_are_always_excluded_and_archives_only_from_active_scope() {
    assert!(is_excluded("specs/templates/feature/user-story.md", false));
    assert!(is_excluded("specs/templates/feature/user-story.md", true));
    assert!(is_excluded("specs/archive/001-old/user-story.md", false));
    assert!(!is_excluded("specs/archive/001-old/user-story.md", true));
    assert!(!is_excluded("specs/feature/user-story.md", false));
    assert!(!is_excluded("specs/archived/user-story.md", false));
}

#[test]
fn discovered_paths_are_sorted_as_text() {
    let paths = vec![
        "specs/z/user-story.md".to_owned(),
        "specs/adr/ADR-001.md".to_owned(),
        "specs/a/user-story.md".to_owned(),
    ];
    assert_eq!(
        sort_paths(paths),
        vec!["specs/a/user-story.md", "specs/adr/ADR-001.md", "specs/z/user-story.md"]
    );
}

#[test]
fn invalid_discovered_path_is_a_discovery_error() {
    assert_eq!(
        discovered_path("/specs/a.md"),
        Err(ValidationError::Discovery(
            "invalid discovered path `/specs/a.md`: artifact path is not repository-relative"
                .to_owned()
        ))
    );
    assert_eq!(
        discovered_path(""),
        Err(ValidationError::Discovery("invalid discovered path ``: artifact path is empty".to_owned()))
    );
    assert_eq!(discovered_path("specs/a.md").map(|p| p.as_str().to_owned()), Ok("specs/a.md".to_owned()));
}

#[test]
fn unreadable_file_becomes_a_source_read_finding() {
    let Ok(path) = ArtifactPath::try_new("specs/feature/user-story.md") else { panic!() };
    let candidate =
        candidate_for_read(path, ArtifactKind::UserStory, Err("permission denied".to_owned()));
    assert!(candidate.snapshot().is_none());
    let Some(diagnostic) = candidate.diagnostic() else { panic!("no diagnostic") };
    assert_eq!(diagnostic.rule_id().as_str(), "ARTIFACT.USER-STORY.SOURCE_READ");
    assert_eq!(diagnostic.message(), "artifact could not be read: permission denied");
    assert_eq!(diagnostic.remediation(), "make the canonical artifact readable");
    assert_eq!(candidate.path().as_str(), "specs/feature/user-story.md");
}

#[test]
fn readable_file_becomes_its_parsed_snapshot() {
    let Ok(path) = ArtifactPath::try_new("specs/feature/user-story.md") else { panic!() };
    let candidate = candidate_for_read(
        path,
        ArtifactKind::UserStory,
        Ok("---\nid: US-001\n---\n# User Story\n".to_owned()),
    );
    assert!(candidate.diagnostic().is_none());
    let Some(snapshot) = candidate.snapshot() else { panic!("no snapshot") };
    assert_eq!(snapshot.id().map(|id| id.as_str()), Some("US-001"));
    assert_eq!(snapshot.kind(), ArtifactKind::UserStory);
}
