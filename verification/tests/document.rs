use sdd_validation::{ChecklistItem, DocumentSnapshot, FeatureSnapshot, Heading, SourceLine};

#[test]
fn exposes_markdown_structure() {
    let line = SourceLine::new(3, "## Context");
    let heading = Heading::new(2, "Context", 3);
    let checklist = ChecklistItem::new(true, "Complete", 4);
    let document = DocumentSnapshot::new(
        vec![line.clone()],
        vec![heading.clone()],
        vec![checklist.clone()],
        None,
    );

    assert_eq!(line.line(), 3);
    assert_eq!(line.text(), "## Context");
    assert_eq!(heading.level(), 2);
    assert_eq!(heading.text(), "Context");
    assert_eq!(heading.line(), 3);
    assert!(checklist.checked());
    assert_eq!(checklist.text(), "Complete");
    assert_eq!(checklist.line(), 4);
    assert_eq!(document.lines(), &[line]);
    assert_eq!(document.headings(), &[heading]);
    assert_eq!(document.checklist_items(), &[checklist]);
    assert_eq!(document.feature(), None);
}

#[test]
fn exposes_gherkin_structure() {
    let feature = FeatureSnapshot::new(
        Some("US-001".to_string()),
        Some("approved".to_string()),
        Some("Validate".to_string()),
        2,
        true,
        false,
        true,
    );
    let document = DocumentSnapshot::new(Vec::new(), Vec::new(), Vec::new(), Some(feature));
    let Some(feature) = document.feature() else { return };

    assert_eq!(feature.parent(), Some("US-001"));
    assert_eq!(feature.status(), Some("approved"));
    assert_eq!(feature.name(), Some("Validate"));
    assert_eq!(feature.scenario_count(), 2);
    assert!(feature.has_given());
    assert!(!feature.has_when());
    assert!(feature.has_then());
}

#[test]
fn creates_empty_document() {
    let document = DocumentSnapshot::empty();

    assert!(document.lines().is_empty());
    assert!(document.headings().is_empty());
    assert!(document.checklist_items().is_empty());
    assert!(document.feature().is_none());
}
