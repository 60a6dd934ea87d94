use sdd_validation::{
    parse_artifact, ArtifactCandidate, ArtifactKind, ArtifactPath, ArtifactSource,
    ArtifactStatus, MetadataValue, OverallStatus, ValidationError, Validator,
};

const MARKDOWN_HEADINGS: &str = "# User Story\n\n## Story Card\n";

const VALID_FEATURE: &str = "# parent: US-001\n# status: approved\n\nFeature: Validate\n\n  Scenario: Works\n    Given an active repository\n    When validation runs\n    Then the report succeeds\n";

struct Parsed(Vec<ArtifactCandidate>);

impl ArtifactSource for Parsed {
    fn discover(&self) -> Result<Vec<ArtifactCandidate>, ValidationError> {
        Ok(self.0.clone())
    }
}

#[test]
fn parses_yaml_frontmatter_and_markdown_structure() {
    let Ok(path) = ArtifactPath::try_new("specs/feature/user-story.md") else { return };
    let contents = "---\nid: US-001\ntitle: Validate\nstatus: approved\nrelated: []\n---\n\n";
    let snapshot =
        parse_artifact(path, ArtifactKind::UserStory, &format!("{contents}{MARKDOWN_HEADINGS}"));

    assert!(
        matches!(snapshot.metadata().get("id"), Some(MetadataValue::Scalar(value)) if value == "US-001")
    );
    assert!(snapshot.document().headings().iter().any(|heading| heading.text() == "User Story"));
    assert!(snapshot.parser_diagnostics().is_empty());
}

#[test]
fn parses_markdown_checklist_items() {
    let Ok(path) = ArtifactPath::try_new("specs/feature/tasks.md") else { return };
    let snapshot =
        parse_artifact(path, ArtifactKind::Task, "## Definition Of Done\n- [x] complete\n");

    assert_eq!(snapshot.document().checklist_items().len(), 1);
}

#[test]
fn reports_malformed_frontmatter_without_panicking() {
    let Ok(path) = ArtifactPath::try_new("specs/feature/user-story.md") else { return };
    let snapshot = parse_artifact(path, ArtifactKind::UserStory, "---\nid: [\n---\n# User Story\n");

    assert!(!snapshot.parser_diagnostics().is_empty());
    assert_eq!(snapshot.path().as_str(), "specs/feature/user-story.md");
}

#[test]
fn parses_gherkin_feature_and_steps() {
    let Ok(path) = ArtifactPath::try_new("specs/feature/scenarios.feature") else { return };
    let snapshot = parse_artifact(path, ArtifactKind::Gherkin, VALID_FEATURE);
    let feature = snapshot.document().feature();

    assert!(feature.is_some());
    let Some(feature) = feature else { return };
    assert_eq!(feature.parent(), Some("US-001"));
    assert_eq!(feature.status(), Some("approved"));
    assert_eq!(feature.scenario_count(), 1);
    assert!(feature.has_given() && feature.has_when() && feature.has_then());
    assert!(snapshot.parser_diagnostics().is_empty());
}

#[test]
fn reports_malformed_gherkin() {
    let Ok(path) = ArtifactPath::try_new("specs/feature/scenarios.feature") else { return };
    let snapshot = parse_artifact(path, ArtifactKind::Gherkin, "not a Gherkin feature");

    assert!(snapshot
        .parser_diagnostics()
        .iter()
        .any(|diagnostic| diagnostic.rule_id().as_str().ends_with("GHERKIN_PARSE")));
}

#[test]
fn gherkin_feature_name_and_step_kinds_come_from_the_parser() {
    let Ok(path) = ArtifactPath::try_new("specs/feature/scenarios.feature") else { return };
    let contents = "Feature: Only given\n\n  Scenario: One\n    Given a thing\n    And another\n\n  Scenario: Two\n    Given more\n";
    let snapshot = parse_artifact(path, ArtifactKind::Gherkin, contents);
    let Some(feature) = snapshot.document().feature() else { panic!("no feature") };
    assert_eq!(feature.name(), Some("Only given"));
    assert_eq!(feature.parent(), None);
    assert_eq!(feature.scenario_count(), 2);
    assert!(feature.has_given());
    assert!(!feature.has_when());
    assert!(!feature.has_then());
}

#[test]
fn yaml_values_are_normalized_by_shape() {
    let Ok(path) = ArtifactPath::try_new("specs/feature/user-story.md") else { return };
    let contents = "---\nid: US-001\nparent: null\ncount: 3\nflag: true\nrelated:\n  - US-002\n  - 7\nnested:\n  key: value\n---\n# User Story\n";
    let snapshot = parse_artifact(path, ArtifactKind::UserStory, contents);
    let metadata = snapshot.metadata();
    assert_eq!(metadata.get("parent"), Some(&MetadataValue::Null));
    assert_eq!(metadata.get("count"), Some(&MetadataValue::scalar("3")));
    assert_eq!(metadata.get("flag"), Some(&MetadataValue::scalar("true")));
    assert_eq!(metadata.get("related"), Some(&MetadataValue::sequence(&["US-002", "7"])));
    assert_eq!(metadata.get("nested"), Some(&MetadataValue::Mapping));
    assert_eq!(snapshot.id().map(|id| id.as_str()), Some("US-001"));
    assert!(snapshot.parser_diagnostics().is_empty());
}

#[test]
fn frontmatter_must_be_a_mapping() {
    let Ok(path) = ArtifactPath::try_new("specs/feature/user-story.md") else { return };
    let snapshot = parse_artifact(path, ArtifactKind::UserStory, "---\n- one\n- two\n---\n");
    assert_eq!(snapshot.parser_diagnostics().len(), 1);
    assert_eq!(
        snapshot.parser_diagnostics()[0].rule_id().as_str(),
        "ARTIFACT.USER-STORY.FRONTMATTER_SHAPE"
    );
    assert!(snapshot.metadata().iter().is_empty());
}

#[test]
fn unterminated_frontmatter_is_reported() {
    let Ok(path) = ArtifactPath::try_new("specs/feature/user-story.md") else { return };
    let snapshot = parse_artifact(path, ArtifactKind::UserStory, "---\nid: US-001\n# User Story\n");
    assert!(snapshot
        .parser_diagnostics()
        .iter()
        .any(|diagnostic| diagnostic.rule_id().as_str() == "ARTIFACT.USER-STORY.FRONTMATTER_PARSE"));
}

#[test]
fn markdown_lines_headings_and_checklists_keep_line_numbers() {
    let Ok(path) = ArtifactPath::try_new("specs/feature/tasks.md") else { return };
    let contents = "---\nid: TASK-001\n---\n# Tasks\n\n## Definition Of Done\n- [ ] open\n* [X] done\ntext\n";
    let snapshot = parse_artifact(path, ArtifactKind::Task, contents);
    let document = snapshot.document();
    let headings: Vec<(u8, &str, usize)> =
        document.headings().iter().map(|h| (h.level(), h.text(), h.line())).collect();
    assert_eq!(headings, vec![(1, "Tasks", 4), (2, "Definition Of Done", 6)]);
    let items: Vec<(bool, &str, usize)> =
        document.checklist_items().iter().map(|i| (i.checked(), i.text(), i.line())).collect();
    assert_eq!(items, vec![(false, "open", 7), (true, "done", 8)]);
    assert_eq!(document.lines().first().map(|l| (l.line(), l.text())), Some((1, "---")));
    assert_eq!(document.lines().len(), 9);
}

fn valid_artifact_contents(kind: ArtifactKind) -> String {
    if kind == ArtifactKind::Gherkin {
        return VALID_FEATURE.to_string();
    }
    let id = format!("{}-001", kind.id_prefix().unwrap_or("NO"));
    let type_value = kind.expected_type().unwrap_or("unknown");
    let parent = match kind {
        ArtifactKind::Prd | ArtifactKind::Adr => "null",
        ArtifactKind::Epic | ArtifactKind::UserStory => "PRD-001",
        _ => "US-001",
    };
    let additional = match kind {
        ArtifactKind::Prd => "scope: project\n",
        ArtifactKind::UserStory => "epic: EPIC-001\nfeature: validate-artifacts\n",
        _ => "",
    };
    let references = match kind {
        ArtifactKind::Prd | ArtifactKind::Adr => "supersedes: null\nsuperseded_by: null\n",
        _ => "depends_on: []\nrequires: []\nblockers: []\n",
    };
    let mut document = String::new();
    for heading in headings_for(kind) {
        document.push_str("## ");
        document.push_str(heading);
        document.push('\n');
    }
    format!(
        "---\nid: {id}\ntitle: Concrete artifact\ntype: {type_value}\nstatus: approved\ncreated: 2026-09-04\nupdated: 2026-09-04\nowner: project-owner\nparent: {parent}\n{additional}{references}related: []\n---\n\n{document}- [x] complete\n"
    )
}

fn headings_for(kind: ArtifactKind) -> &'static [&'static str] {
    match kind {
        ArtifactKind::Prd => &[
            "Product Requirements Document", "Vision And Problem", "Target Personas And Journeys",
            "Success Metrics", "Functional Scope And Epics", "Non-Functional Requirements",
            "Assumptions And Out Of Scope", "Open Questions", "Decision Log", "Review Checklist",
        ],
        ArtifactKind::Epic => &[
            "Epic Brief", "Outcome Statement", "Capability Boundaries", "Candidate Vertical Slices",
            "Success Criteria", "Dependencies", "Open Questions", "Readiness Checklist",
        ],
        ArtifactKind::UserStory => &[
            "User Story", "Story Card", "Context And Value", "Business Rules", "Examples",
            "Acceptance Criteria", "Scope Boundaries", "Dependencies", "Open Questions",
            "Invest Check",
        ],
        ArtifactKind::Requirements => &[
            "Requirements", "Purpose And Actors", "Preconditions", "Inputs And Outputs",
            "Functional Requirements", "Postconditions And Invariants", "Edge And Failure Behavior",
            "Quality Requirements", "Traceability", "Supplementary Notes",
        ],
        ArtifactKind::Design => &[
            "Design", "Context And Constraints", "Proposed Design",
            "Components And Responsibilities", "Interfaces And Contracts", "Data And State Flow",
            "Security, Performance, And Operations", "Alternatives Considered",
            "Risks And Open Decisions", "Verification Approach",
        ],
        ArtifactKind::Adr => &[
            "Architecture Decision Record", "Context", "Decision", "Alternatives Considered",
            "Consequences", "Follow-Up Actions", "Supplementary Notes", "More Notes",
            "Final Notes", "Additional Notes",
        ],
        ArtifactKind::Task => &[
            "Tasks", "Implementation Approach", "Ordered Tasks", "Test And Verification Plan",
            "Rollout And Recovery", "Definition Of Done",
        ],
        ArtifactKind::Gherkin => &["Gherkin"],
    }
}

fn canonical_path(kind: ArtifactKind) -> &'static str {
    match kind {
        ArtifactKind::Prd => "specs/prds/PRD-001.md",
        ArtifactKind::Epic => "specs/prds/PRD-001-epics/EPIC-001.md",
        ArtifactKind::UserStory => "specs/validate/user-story.md",
        ArtifactKind::Gherkin => "specs/validate/scenarios.feature",
        ArtifactKind::Requirements => "specs/validate/requirements.md",
        ArtifactKind::Design => "specs/validate/design.md",
        ArtifactKind::Adr => "specs/adr/ADR-001.md",
        ArtifactKind::Task => "specs/validate/tasks.md",
    }
}

fn parsed(kind: ArtifactKind, contents: &str) -> ArtifactCandidate {
    let Ok(path) = ArtifactPath::try_new(canonical_path(kind)) else { panic!("fixture path") };
    ArtifactCandidate::from_snapshot(parse_artifact(path, kind, contents))
}

#[test]
fn parses_and_validates_all_eight_types_cleanly() {
    let candidates =
        ArtifactKind::ALL.iter().map(|kind| parsed(*kind, &valid_artifact_contents(*kind))).collect();
    let result = Validator::new(Parsed(candidates)).validate();

    assert!(result.is_ok());
    let Ok(report) = result else { return };
    assert_eq!(report.status(), OverallStatus::Success, "report: {report:?}");
    assert_eq!(report.artifacts().len(), 8);
    assert!(report.artifacts().iter().all(
        |artifact| artifact.status() == ArtifactStatus::Passed && artifact.violations().is_empty()
    ));
}

#[test]
fn parsed_multi_violation_artifact_fails_with_actionable_findings() {
    let invalid = "---\nid: US-invalid\ntitle: TBD\ntype: wrong\nstatus: unknown\ncreated: 2026-09-04\nupdated: 2026-09-04\nowner: owner\nparent: nope\nepic: nope\nfeature: feature\ndepends_on: []\nrequires: []\nblockers: []\nrelated: []\n---\n# User Story\n";
    let result = Validator::new(Parsed(vec![parsed(ArtifactKind::UserStory, invalid)])).validate();

    assert!(result.is_ok());
    let Ok(report) = result else { return };
    let Some(artifact) = report.artifacts().first() else { panic!("no artifact") };
    assert_eq!(report.status(), OverallStatus::Failure);
    assert_eq!(artifact.status(), ArtifactStatus::Diagnostic);
    assert!(artifact.violations().len() > 5);
    assert!(artifact.violations().iter().all(|diagnostic| {
        diagnostic.path().as_str() == "specs/validate/user-story.md"
            && !diagnostic.rule_id().as_str().is_empty()
            && !diagnostic.message().is_empty()
            && !diagnostic.remediation().is_empty()
    }));
}

#[test]
fn parsing_is_deterministic() {
    let contents = valid_artifact_contents(ArtifactKind::UserStory);
    assert_eq!(parsed(ArtifactKind::UserStory, &contents), parsed(ArtifactKind::UserStory, &contents));
}
