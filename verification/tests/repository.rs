use sdd_validation::{
    candidate_for_read, discovered_path, is_excluded, sort_paths, ArtifactCandidate,
    ArtifactIdentitySource, ArtifactKind, ArtifactResult, ArtifactSource, ArtifactStatus,
    CycleValidator, Diagnostic, IdentityValidator, OverallStatus, ReciprocalRelationshipValidator,
    RelationshipValidator, ValidationError, ValidationReport, Validator,
};

/// A repository held in memory and discovered with the library's own
/// decisions: skipped paths, canonical kinds, text order and parsing.
#[derive(Clone, Default)]
struct Repository {
    files: Vec<(String, String)>,
}

impl Repository {
    fn with(mut self, path: &str, contents: &str) -> Self {
        self.files.push((path.to_owned(), contents.to_owned()));
        self
    }

    fn discover_scope(&self, include_archive: bool) -> Result<Vec<ArtifactCandidate>, ValidationError> {
        let relatives: Vec<String> = self
            .files
            .iter()
            .map(|(path, _)| path.clone())
            .filter(|path| !is_excluded(path, include_archive))
            .filter(|path| ArtifactKind::from_path(path).is_some())
            .collect();
        sort_paths(relatives)
            .into_iter()
            .map(|relative| {
                let Some(kind) = ArtifactKind::from_path(&relative) else { panic!("kind") };
                let path = discovered_path(&relative)?;
                let contents = self
                    .files
                    .iter()
                    .find(|(path, _)| *path == relative)
                    .map(|(_, contents)| contents.clone());
                Ok(candidate_for_read(path, kind, contents.ok_or_else(|| "missing".to_owned())))
            })
            .collect()
    }
}

impl ArtifactSource for Repository {
    fn discover(&self) -> Result<Vec<ArtifactCandidate>, ValidationError> {
        self.discover_scope(false)
    }
}

impl ArtifactIdentitySource for Repository {
    fn discover_identities(&self) -> Result<Vec<ArtifactCandidate>, ValidationError> {
        self.discover_scope(true)
    }
}

fn frontmatter(id: &str) -> String {
    format!("---\nid: {id}\n---\n")
}

const STORY_BODY: &str = "## User Story\n## Story Card\n## Context And Value\n## Business Rules\n## Examples\n## Acceptance Criteria\n## Scope Boundaries\n## Dependencies\n## Open Questions\n## Invest Check\n- [x] complete\n";

fn story(id: &str, status: &str, fields: &str) -> String {
    format!(
        "---\nid: {id}\ntitle: Repository fixture\ntype: user-story\nstatus: {status}\ncreated: 2026-09-05\nupdated: 2026-09-05\nowner: test-owner\nparent: PRD-001\nepic: EPIC-001\nfeature: repository\n{fields}---\n{STORY_BODY}"
    )
}

fn plain_story(id: &str, status: &str) -> String {
    story(id, status, "depends_on: []\nrequires: []\nblockers: []\nrelated: []\n")
}

fn requiring_story(id: &str, status: &str, requires: &[&str]) -> String {
    let requires =
        if requires.is_empty() { "[]".to_string() } else { format!("[{}]", requires.join(", ")) };
    story(id, status, &format!("depends_on: []\nrequires: {requires}\nblockers: []\nrelated: []\n"))
}

fn linked_story(
    id: &str,
    status: &str,
    related: &[&str],
    supersedes: Option<&str>,
    superseded_by: Option<&str>,
) -> String {
    story(
        id,
        status,
        &format!(
            "depends_on: []\nrequires: []\nblockers: []\nrelated: [{}]\nsupersedes: {}\nsuperseded_by: {}\n",
            related.join(", "),
            supersedes.unwrap_or("null"),
            superseded_by.unwrap_or("null"),
        ),
    )
}

fn depending_story(id: &str, dependency: &str) -> String {
    story(
        id,
        "approved",
        &format!(
            "depends_on: [{dependency}]\nrequires: []\nblockers: []\nrelated: []\nsupersedes: null\nsuperseded_by: null\n"
        ),
    )
}

fn supporting_targets(repository: Repository) -> Repository {
    repository
        .with("specs/prds/PRD-001.md", &frontmatter("PRD-001"))
        .with("specs/prds/PRD-001-epics/EPIC-001.md", &frontmatter("EPIC-001"))
}

fn result_for<'a>(report: &'a ValidationReport, path: &str) -> Option<&'a ArtifactResult> {
    report.artifacts().iter().find(|artifact| artifact.path().as_str() == path)
}

fn findings_with<'a>(report: &'a ValidationReport, prefix: &str) -> Vec<&'a Diagnostic> {
    report
        .artifacts()
        .iter()
        .flat_map(ArtifactResult::violations)
        .filter(|diagnostic| diagnostic.rule_id().as_str().starts_with(prefix))
        .collect()
}

#[test]
fn discovers_only_canonical_active_paths() {
    let repository = Repository::default()
        .with("specs/prds/PRD-001.md", "---\nid: PRD-001\n---\n")
        .with("specs/prds/PRD-001-epics/EPIC-001.md", "---\nid: EPIC-001\n---\n")
        .with("specs/feature/user-story.md", "---\nid: US-001\n---\n")
        .with("specs/feature/scenarios.feature", "Feature: Feature\n")
        .with("specs/feature/requirements.md", "---\nid: REQ-001\n---\n")
        .with("specs/feature/design.md", "---\nid: DES-001\n---\n")
        .with("specs/adr/ADR-001.md", "---\nid: ADR-001\n---\n")
        .with("specs/feature/tasks.md", "---\nid: TASK-001\n---\n")
        .with("specs/templates/feature/user-story.md", "template")
        .with("specs/archive/001-old/user-story.md", "archive")
        .with("specs/feature/supporting.md", "supporting");

    let result = repository.discover();

    assert!(result.is_ok());
    let Ok(candidates) = result else { return };
    assert_eq!(candidates.len(), 8);
    assert!(candidates.iter().all(|candidate| candidate.path().as_str().starts_with("specs/")));
    assert!(candidates.iter().all(|candidate| !candidate.path().as_str().contains("templates")));
    assert!(candidates.iter().all(|candidate| !candidate.path().as_str().contains("archive")));
}

#[test]
fn discovers_empty_active_set() {
    let result = Repository::default().discover();

    assert!(result.is_ok());
    let Ok(candidates) = result else { return };
    assert!(candidates.is_empty());
}

#[test]
fn parsed_candidate_can_be_validated_after_discovery() {
    let repository = Repository::default().with("specs/feature/user-story.md", "---\n---\n");
    let result = repository.discover();

    assert!(result.is_ok());
    let Ok(candidates) = result else { return };
    let Some(candidate) = candidates.first() else { panic!("no candidate") };
    let Some(snapshot) = candidate.snapshot() else { panic!("no snapshot") };
    let artifact = ArtifactResult::from_snapshot(snapshot);
    assert_eq!(artifact.status(), ArtifactStatus::Diagnostic);
}

#[test]
fn accepts_unique_current_and_historical_identities() {
    let repository = Repository::default()
        .with("specs/current/user-story.md", &plain_story("US-001", "approved"))
        .with("specs/archive/001-old/user-story.md", &plain_story("US-002", "superseded"));

    let report = IdentityValidator::new(repository).validate();
    assert!(report.is_ok());
    let Ok(report) = report else { return };

    assert_eq!(report.status(), OverallStatus::Success);
    assert_eq!(report.artifacts().len(), 2);
    assert!(report.artifacts().iter().all(|artifact| {
        artifact.status() == ArtifactStatus::Passed && artifact.violations().is_empty()
    }));
}

#[test]
fn discovers_active_and_archived_identity_paths_only() {
    let repository = Repository::default()
        .with("specs/current/user-story.md", &frontmatter("US-001"))
        .with("specs/archive/001-old/user-story.md", &frontmatter("US-002"))
        .with("specs/templates/feature/user-story.md", &frontmatter("US-003"))
        .with("specs/current/supporting.md", &frontmatter("US-004"));

    let Ok(candidates) = repository.discover_identities() else { panic!("discovery") };
    let paths: Vec<&str> = candidates.iter().map(|candidate| candidate.path().as_str()).collect();
    assert_eq!(paths, vec!["specs/archive/001-old/user-story.md", "specs/current/user-story.md"]);
    assert_eq!(repository.discover_identities(), Ok(candidates));
}

#[test]
fn reports_duplicate_ids_across_active_and_archived_files() {
    let repository = Repository::default()
        .with("specs/current/user-story.md", &frontmatter("US-001"))
        .with("specs/archive/001-old/user-story.md", &frontmatter("US-001"))
        .with("specs/current/requirements.md", &frontmatter("REQ-001"));

    let report = IdentityValidator::new(repository).validate();
    assert!(report.is_ok());
    let Ok(report) = report else { return };

    assert_eq!(report.status(), OverallStatus::Failure);
    for path in ["specs/current/user-story.md", "specs/archive/001-old/user-story.md"] {
        let Some(result) = result_for(&report, path) else { panic!("missing result") };
        assert_eq!(result.status(), ArtifactStatus::Diagnostic);
        assert!(result.violations().iter().any(|diagnostic| {
            diagnostic.rule_id().as_str() == "ARTIFACT.IDENTITY.DUPLICATE_ID"
                && diagnostic.message().contains("US-001")
        }));
    }
    assert!(result_for(&report, "specs/current/requirements.md").is_some());
}

#[test]
fn reports_path_identity_mismatches_from_real_files() {
    let repository = Repository::default()
        .with("specs/prds/PRD-003.md", &frontmatter("PRD-004"))
        .with("specs/prds/PRD-001-epics/EPIC-003.md", &frontmatter("EPIC-004"))
        .with("specs/adr/ADR-003.md", &frontmatter("ADR-004"));

    let report = IdentityValidator::new(repository).validate();
    assert!(report.is_ok());
    let Ok(report) = report else { return };

    assert_eq!(report.status(), OverallStatus::Failure);
    for (path, filename_id, frontmatter_id) in [
        ("specs/prds/PRD-003.md", "PRD-003", "PRD-004"),
        ("specs/prds/PRD-001-epics/EPIC-003.md", "EPIC-003", "EPIC-004"),
        ("specs/adr/ADR-003.md", "ADR-003", "ADR-004"),
    ] {
        let Some(result) = result_for(&report, path) else { panic!("missing result") };
        assert!(result.violations().iter().any(|diagnostic| {
            diagnostic.rule_id().as_str() == "ARTIFACT.IDENTITY.PATH_IDENTITY"
                && diagnostic.message().contains(filename_id)
                && diagnostic.message().contains(frontmatter_id)
        }));
    }
}

#[test]
fn preserves_malformed_frontmatter_as_structural_diagnostic() {
    let repository = Repository::default()
        .with("specs/current/user-story.md", "---\nid: [\n---\n# User Story\n");

    let report = IdentityValidator::new(repository).validate();
    assert!(report.is_ok());
    let Ok(report) = report else { return };
    let Some(result) = result_for(&report, "specs/current/user-story.md") else { panic!() };

    assert!(result
        .violations()
        .iter()
        .any(|diagnostic| diagnostic.rule_id().as_str().ends_with("FRONTMATTER_PARSE")));
    assert!(!result
        .violations()
        .iter()
        .any(|diagnostic| diagnostic.rule_id().as_str().starts_with("ARTIFACT.IDENTITY.")));
}

#[test]
fn discovers_empty_identity_set_successfully() {
    let report = IdentityValidator::new(Repository::default()).validate();
    assert!(report.is_ok());
    let Ok(report) = report else { return };

    assert_eq!(report.status(), OverallStatus::Success);
    assert!(report.artifacts().is_empty());
}

#[test]
fn resolves_active_archived_and_superseded_targets() {
    let repository = supporting_targets(Repository::default())
        .with("specs/current/user-story.md", &requiring_story("US-001", "approved", &["US-002", "US-003"]))
        .with("specs/archive/001-old/user-story.md", &requiring_story("US-002", "archived", &[]))
        .with("specs/archive/002-old/user-story.md", &requiring_story("US-003", "superseded", &[]));

    let report = RelationshipValidator::new(repository).validate();

    assert!(report.is_ok());
    let Ok(report) = report else { return };
    assert!(findings_with(&report, "ARTIFACT.RELATIONSHIP.").is_empty());
    assert!(result_for(&report, "specs/archive/001-old/user-story.md").is_some());
    assert!(result_for(&report, "specs/archive/002-old/user-story.md").is_some());
}

#[test]
fn excludes_template_and_supporting_file_targets() {
    let repository = supporting_targets(Repository::default())
        .with("specs/current/user-story.md", &requiring_story("US-001", "approved", &["REQ-900"]))
        .with("specs/templates/feature/requirements.md", &frontmatter("REQ-900"))
        .with("specs/supporting.md", &frontmatter("REQ-900"));

    let report = RelationshipValidator::new(repository).validate();

    assert!(report.is_ok());
    let Ok(report) = report else { return };
    let Some(source) = result_for(&report, "specs/current/user-story.md") else { panic!() };
    let diagnostics = findings_with(&report, "ARTIFACT.RELATIONSHIP.");
    assert_eq!(diagnostics.len(), 1);
    let Some(diagnostic) = diagnostics.first() else { return };
    assert_eq!(diagnostic.path(), source.path());
    assert_eq!(diagnostic.rule_id().as_str(), "ARTIFACT.RELATIONSHIP.MISSING_TARGET");
    assert!(diagnostic.message().contains("REQ-900"));
}

#[test]
fn leaves_structural_relationship_values_out_of_target_resolution() {
    let malformed = requiring_story("US-001", "approved", &["TBD", "not-an-id", "\"\""]);
    let repository =
        supporting_targets(Repository::default()).with("specs/current/user-story.md", &malformed);

    let report = RelationshipValidator::new(repository).validate();

    assert!(report.is_ok());
    let Ok(report) = report else { return };
    assert!(findings_with(&report, "ARTIFACT.RELATIONSHIP.").is_empty());
    let Some(source) = result_for(&report, "specs/current/user-story.md") else { panic!() };
    assert!(source
        .violations()
        .iter()
        .any(|diagnostic| diagnostic.rule_id().as_str() == "ARTIFACT.USER-STORY.REFERENCE_SYNTAX"));
}

#[test]
fn reports_multiple_invalid_entries_without_suppressing_unrelated_artifacts() {
    let repository = supporting_targets(Repository::default())
        .with(
            "specs/current/user-story.md",
            &requiring_story("US-001", "approved", &["REQ-900", "REQ-901"]),
        )
        .with("specs/current/requirements.md", &frontmatter("REQ-001"));

    let report = RelationshipValidator::new(repository).validate();

    assert!(report.is_ok());
    let Ok(report) = report else { return };
    assert_eq!(findings_with(&report, "ARTIFACT.RELATIONSHIP.").len(), 2);
    assert!(result_for(&report, "specs/current/requirements.md").is_some());
}

#[test]
fn resolves_related_and_supersession_links_across_historical_scope() {
    let repository = supporting_targets(Repository::default())
        .with(
            "specs/current/user-story.md",
            &linked_story("US-001", "approved", &["US-002"], Some("US-003"), None),
        )
        .with(
            "specs/archive/001-old/user-story.md",
            &linked_story("US-002", "archived", &["US-001"], None, None),
        )
        .with(
            "specs/archive/002-superseded/user-story.md",
            &linked_story("US-003", "superseded", &[], None, Some("US-001")),
        );

    let result = ReciprocalRelationshipValidator::new(repository).validate();

    assert!(result.is_ok());
    let Ok(report) = result else { return };
    assert!(findings_with(&report, "ARTIFACT.RELATIONSHIP.NON_RECIPROCAL").is_empty());
    assert_eq!(report.artifacts().len(), 5);
}

#[test]
fn reports_independent_missing_related_and_supersession_counterparts() {
    let repository = supporting_targets(Repository::default())
        .with(
            "specs/current/user-story.md",
            &linked_story("US-001", "approved", &["US-002"], Some("US-002"), None),
        )
        .with(
            "specs/archive/001-old/user-story.md",
            &linked_story("US-002", "archived", &[], None, None),
        );

    let result = ReciprocalRelationshipValidator::new(repository).validate();

    assert!(result.is_ok());
    let Ok(report) = result else { return };
    let findings = findings_with(&report, "ARTIFACT.RELATIONSHIP.NON_RECIPROCAL");
    assert_eq!(findings.len(), 2);
    assert!(findings.iter().all(|finding| {
        finding.path().as_str() == "specs/current/user-story.md"
            && !finding.message().is_empty()
            && !finding.remediation().is_empty()
    }));
}

#[test]
fn excludes_template_and_supporting_files_from_reciprocity() {
    let repository = supporting_targets(Repository::default())
        .with(
            "specs/current/user-story.md",
            &linked_story("US-001", "approved", &["REQ-900"], None, None),
        )
        .with("specs/templates/feature/requirements.md", "---\nid: REQ-900\n---\n")
        .with("specs/supporting.md", "---\nid: REQ-900\n---\n");

    let result = ReciprocalRelationshipValidator::new(repository).validate();

    assert!(result.is_ok());
    let Ok(report) = result else { return };
    assert!(findings_with(&report, "ARTIFACT.RELATIONSHIP.NON_RECIPROCAL").is_empty());
    let Some(source) = result_for(&report, "specs/current/user-story.md") else { panic!() };
    assert!(source
        .violations()
        .iter()
        .any(|diagnostic| diagnostic.rule_id().as_str() == "ARTIFACT.RELATIONSHIP.MISSING_TARGET"));
}

#[test]
fn skips_empty_and_structurally_invalid_relationship_values() {
    let contents = linked_story("US-001", "approved", &[], None, None)
        .replace("related: []", "related: US-002")
        .replace("supersedes: null", "supersedes: [US-003]")
        .replace("superseded_by: null", "superseded_by: TBD");
    let repository =
        supporting_targets(Repository::default()).with("specs/current/user-story.md", &contents);

    let result = ReciprocalRelationshipValidator::new(repository).validate();

    assert!(result.is_ok());
    let Ok(report) = result else { return };
    assert!(findings_with(&report, "ARTIFACT.RELATIONSHIP.NON_RECIPROCAL").is_empty());
}

#[test]
fn detects_cycles_across_active_and_archived_artifacts() {
    let repository = supporting_targets(Repository::default())
        .with("specs/current/user-story.md", &depending_story("US-001", "US-002"))
        .with("specs/archive/001-old/user-story.md", &depending_story("US-002", "US-003"))
        .with("specs/archive/002-superseded/user-story.md", &depending_story("US-003", "US-001"));

    let result = CycleValidator::new(repository).validate();
    assert!(result.is_ok());
    let Ok(report) = result else { return };

    assert_eq!(findings_with(&report, "ARTIFACT.RELATIONSHIP.CYCLE").len(), 3);
    assert_eq!(report.artifacts().len(), 5);
}

#[test]
fn excluded_files_create_no_cycle_edges() {
    let repository = supporting_targets(Repository::default())
        .with("specs/current/user-story.md", &depending_story("US-001", "REQ-900"))
        .with("specs/templates/feature/requirements.md", "---\nid: REQ-900\n---\n")
        .with("specs/supporting.md", "---\nid: REQ-900\n---\n");

    let first = CycleValidator::new(repository.clone()).validate();
    let second = CycleValidator::new(repository).validate();

    assert_eq!(first, second);
    let Ok(first) = first else { panic!("validation") };
    assert!(findings_with(&first, "ARTIFACT.RELATIONSHIP.CYCLE").is_empty());
    assert!(!findings_with(&first, "ARTIFACT.RELATIONSHIP.MISSING_TARGET").is_empty());
}

#[test]
fn structural_validation_of_a_discovered_repository_fails_on_invalid_files() {
    let repository = supporting_targets(Repository::default())
        .with("specs/current/user-story.md", &plain_story("US-001", "approved"))
        .with("specs/current/tasks.md", "---\nid: TASK-001\n---\n");
    let result = Validator::new(repository).validate();
    let Ok(report) = result else { panic!("validation") };
    assert_eq!(report.status(), OverallStatus::Failure);
    let Some(story) = result_for(&report, "specs/current/user-story.md") else { panic!() };
    assert_eq!(story.status(), ArtifactStatus::Passed);
    let Some(tasks) = result_for(&report, "specs/current/tasks.md") else { panic!() };
    assert_eq!(tasks.status(), ArtifactStatus::Diagnostic);
}
