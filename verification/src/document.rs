//! Normalized document structure: source lines, headings, checklist items and
//! the shape of a Gherkin feature.
use crate::text::{lines, owned};
use crate::copy::{copy_all, view_seq, Duplicate};
use vstd::prelude::*;

verus! {

/// A source line: its one-based number and its text.
pub struct LineView {
    pub line: usize,
    pub text: Seq<char>,
}

/// A source line retained for diagnostics and marker checks.
#[derive(Clone, Debug, PartialEq, Eq)]
pub struct SourceLine {
    line: usize,
    text: String,
}

impl View for SourceLine {
    type V = LineView;

    closed spec fn view(&self) -> LineView {
        LineView { line: self.line, text: self.text@ }
    }
}

impl Duplicate for SourceLine {
    fn duplicate(&self) -> (res: Self) {
        SourceLine { line: self.line, text: self.text.duplicate() }
    }
}

impl SourceLine {
    /// Creates a source line with its one-based line number.
    pub fn new(line: usize, text: &str) -> (res: Self)
        ensures
            res@ == (LineView { line, text: text@ }),
    {
        SourceLine { line, text: owned(text) }
    }

    /// Creates a source line that owns its text.
    pub fn from_string(line: usize, text: String) -> (res: Self)
        ensures
            res@ == (LineView { line, text: text@ }),
    {
        SourceLine { line, text }
    }

    /// Returns the one-based line number.
    pub fn line(&self) -> (res: usize)
        ensures
            res == self@.line,
    {
        self.line
    }

    /// Returns the source text without its line ending.
    pub fn text(&self) -> (res: &str)
        ensures
            res@ == self@.text,
    {
        self.text.as_str()
    }
}

/// A heading: level, text and line.
pub struct HeadingView {
    pub level: u8,
    pub text: Seq<char>,
    pub line: usize,
}

/// A Markdown heading.
#[derive(Clone, Debug, PartialEq, Eq)]
pub struct Heading {
    level: u8,
    text: String,
    line: usize,
}

impl View for Heading {
    type V = HeadingView;

    closed spec fn view(&self) -> HeadingView {
        HeadingView { level: self.level, text: self.text@, line: self.line }
    }
}

impl Duplicate for Heading {
    fn duplicate(&self) -> (res: Self) {
        Heading { level: self.level, text: self.text.duplicate(), line: self.line }
    }
}

impl Heading {
    /// Creates a normalized heading.
    pub fn new(level: u8, text: &str, line: usize) -> (res: Self)
        ensures
            res@ == (HeadingView { level, text: text@, line }),
    {
        Heading { level, text: owned(text), line }
    }

    /// Creates a heading that owns its text.
    pub fn from_string(level: u8, text: String, line: usize) -> (res: Self)
        ensures
            res@ == (HeadingView { level, text: text@, line }),
    {
        Heading { level, text, line }
    }

    /// Returns the heading level.
    pub fn level(&self) -> (res: u8)
        ensures
            res == self@.level,
    {
        self.level
    }

    /// Returns the heading text.
    pub fn text(&self) -> (res: &str)
        ensures
            res@ == self@.text,
    {
        self.text.as_str()
    }

    /// Returns the one-based source line.
    pub fn line(&self) -> (res: usize)
        ensures
            res == self@.line,
    {
        self.line
    }
}

/// A checklist item: state, text and line.
pub struct ItemView {
    pub checked: bool,
    pub text: Seq<char>,
    pub line: usize,
}

/// A Markdown checklist item.
#[derive(Clone, Debug, PartialEq, Eq)]
pub struct ChecklistItem {
    checked: bool,
    text: String,
    line: usize,
}

impl View for ChecklistItem {
    type V = ItemView;

    closed spec fn view(&self) -> ItemView {
        ItemView { checked: self.checked, text: self.text@, line: self.line }
    }
}

impl Duplicate for ChecklistItem {
    fn duplicate(&self) -> (res: Self) {
        ChecklistItem { checked: self.checked, text: self.text.duplicate(), line: self.line }
    }
}

impl ChecklistItem {
    /// Creates a normalized checklist item.
    pub fn new(checked: bool, text: &str, line: usize) -> (res: Self)
        ensures
            res@ == (ItemView { checked, text: text@, line }),
    {
        ChecklistItem { checked, text: owned(text), line }
    }

    /// Creates a checklist item that owns its text.
    pub fn from_string(checked: bool, text: String, line: usize) -> (res: Self)
        ensures
            res@ == (ItemView { checked, text: text@, line }),
    {
        ChecklistItem { checked, text, line }
    }

    /// Returns whether the item is checked.
    pub fn checked(&self) -> (res: bool)
        ensures
            res == self@.checked,
    {
        self.checked
    }

    /// Returns the item text.
    pub fn text(&self) -> (res: &str)
        ensures
            res@ == self@.text,
    {
        self.text.as_str()
    }

    /// Returns the one-based source line.
    pub fn line(&self) -> (res: usize)
        ensures
            res == self@.line,
    {
        self.line
    }
}

/// The normalized content of a Gherkin feature.
pub struct FeatureView {
    pub parent: Option<Seq<char>>,
    pub status: Option<Seq<char>>,
    pub name: Option<Seq<char>>,
    pub scenario_count: usize,
    pub has_given: bool,
    pub has_when: bool,
    pub has_then: bool,
}

/// The view of an optional string.
pub open spec fn opt_view(o: Option<String>) -> Option<Seq<char>> {
    match o {
        Some(s) => Some(s@),
        None => None,
    }
}

/// A copy of an optional string.
pub fn copy_opt(o: &Option<String>) -> (res: Option<String>)
    ensures
        opt_view(res) == opt_view(*o),
{
    match o {
        Some(s) => Some(s.duplicate()),
        None => None,
    }
}

/// The normalized structure extracted from a Gherkin file.
#[derive(Clone, Debug, PartialEq, Eq)]
pub struct FeatureSnapshot {
    parent: Option<String>,
    status: Option<String>,
    name: Option<String>,
    scenario_count: usize,
    has_given: bool,
    has_when: bool,
    has_then: bool,
}

impl View for FeatureSnapshot {
    type V = FeatureView;

    closed spec fn view(&self) -> FeatureView {
        FeatureView {
            parent: opt_view(self.parent),
            status: opt_view(self.status),
            name: opt_view(self.name),
            scenario_count: self.scenario_count,
            has_given: self.has_given,
            has_when: self.has_when,
            has_then: self.has_then,
        }
    }
}

impl Duplicate for FeatureSnapshot {
    fn duplicate(&self) -> (res: Self) {
        FeatureSnapshot {
            parent: copy_opt(&self.parent),
            status: copy_opt(&self.status),
            name: copy_opt(&self.name),
            scenario_count: self.scenario_count,
            has_given: self.has_given,
            has_when: self.has_when,
            has_then: self.has_then,
        }
    }
}

impl FeatureSnapshot {
    /// Creates a normalized Gherkin structure.
    pub fn new(
        parent: Option<String>,
        status: Option<String>,
        name: Option<String>,
        scenario_count: usize,
        contains_given_step: bool,
        contains_when_step: bool,
        contains_then_step: bool,
    ) -> (res: Self)
        ensures
            res@ == (FeatureView {
                parent: opt_view(parent),
                status: opt_view(status),
                name: opt_view(name),
                scenario_count,
                has_given: contains_given_step,
                has_when: contains_when_step,
                has_then: contains_then_step,
            }),
    {
        FeatureSnapshot {
            parent,
            status,
            name,
            scenario_count,
            has_given: contains_given_step,
            has_when: contains_when_step,
            has_then: contains_then_step,
        }
    }

    /// Returns the optional workflow parent header.
    pub fn parent(&self) -> (res: Option<&str>)
        ensures
            res is Some <==> self@.parent is Some,
            res is Some ==> res->0@ == self@.parent->0,
    {
        match &self.parent {
            Some(p) => Some(p.as_str()),
            None => None,
        }
    }

    /// Returns the optional lifecycle status header.
    pub fn status(&self) -> (res: Option<&str>)
        ensures
            res is Some <==> self@.status is Some,
            res is Some ==> res->0@ == self@.status->0,
    {
        match &self.status {
            Some(p) => Some(p.as_str()),
            None => None,
        }
    }

    /// Returns the parsed feature name.
    pub fn name(&self) -> (res: Option<&str>)
        ensures
            res is Some <==> self@.name is Some,
            res is Some ==> res->0@ == self@.name->0,
    {
        match &self.name {
            Some(p) => Some(p.as_str()),
            None => None,
        }
    }

    /// Returns the number of scenarios and scenario outlines.
    pub fn scenario_count(&self) -> (res: usize)
        ensures
            res == self@.scenario_count,
    {
        self.scenario_count
    }

    /// Returns whether a Given step was parsed.
    pub fn has_given(&self) -> (res: bool)
        ensures
            res == self@.has_given,
    {
        self.has_given
    }

    /// Returns whether a When step was parsed.
    pub fn has_when(&self) -> (res: bool)
        ensures
            res == self@.has_when,
    {
        self.has_when
    }

    /// Returns whether a Then step was parsed.
    pub fn has_then(&self) -> (res: bool)
        ensures
            res == self@.has_then,
    {
        self.has_then
    }
}

/// The normalized content of a document.
pub struct DocView {
    pub lines: Seq<LineView>,
    pub headings: Seq<HeadingView>,
    pub items: Seq<ItemView>,
    pub feature: Option<FeatureView>,
}

/// Structure extracted from a Markdown or Gherkin artifact.
#[derive(Clone, Debug, PartialEq, Eq)]
pub struct DocumentSnapshot {
    lines: Vec<SourceLine>,
    headings: Vec<Heading>,
    checklist_items: Vec<ChecklistItem>,
    feature: Option<FeatureSnapshot>,
}

/// The views of an optional feature.
pub open spec fn feature_view(f: Option<FeatureSnapshot>) -> Option<FeatureView> {
    match f {
        Some(x) => Some(x@),
        None => None,
    }
}

impl View for DocumentSnapshot {
    type V = DocView;

    closed spec fn view(&self) -> DocView {
        DocView {
            lines: view_seq(self.lines@),
            headings: view_seq(self.headings@),
            items: view_seq(self.checklist_items@),
            feature: feature_view(self.feature),
        }
    }
}

impl Duplicate for DocumentSnapshot {
    fn duplicate(&self) -> (res: Self) {
        let feature = match &self.feature {
            Some(f) => Some(f.duplicate()),
            None => None,
        };
        DocumentSnapshot {
            lines: copy_all(self.lines.as_slice()),
            headings: copy_all(self.headings.as_slice()),
            checklist_items: copy_all(self.checklist_items.as_slice()),
            feature,
        }
    }
}

impl DocumentSnapshot {
    /// Creates a normalized document snapshot.
    pub fn new(
        lines: Vec<SourceLine>,
        headings: Vec<Heading>,
        checklist_items: Vec<ChecklistItem>,
        feature: Option<FeatureSnapshot>,
    ) -> (res: Self)
        ensures
            res@ == (DocView {
                lines: view_seq(lines@),
                headings: view_seq(headings@),
                items: view_seq(checklist_items@),
                feature: feature_view(feature),
            }),
    {
        DocumentSnapshot { lines, headings, checklist_items, feature }
    }

    /// Returns an empty document snapshot.
    pub fn empty() -> (res: Self)
        ensures
            res@.lines.len() == 0,
            res@.headings.len() == 0,
            res@.items.len() == 0,
            res@.feature is None,
    {
        DocumentSnapshot {
            lines: Vec::new(),
            headings: Vec::new(),
            checklist_items: Vec::new(),
            feature: None,
        }
    }

    /// Returns source lines in source order.
    pub fn lines(&self) -> (res: &[SourceLine])
        ensures
            view_seq(res@) == self@.lines,
    {
        self.lines.as_slice()
    }

    /// Returns headings in source order.
    pub fn headings(&self) -> (res: &[Heading])
        ensures
            view_seq(res@) == self@.headings,
    {
        self.headings.as_slice()
    }

    /// Returns checklist items in source order.
    pub fn checklist_items(&self) -> (res: &[ChecklistItem])
        ensures
            view_seq(res@) == self@.items,
    {
        self.checklist_items.as_slice()
    }

    /// Returns the parsed Gherkin structure, if this is a feature file.
    pub fn feature(&self) -> (res: Option<&FeatureSnapshot>)
        ensures
            res is Some <==> self@.feature is Some,
            res is Some ==> res->0@ == self@.feature->0,
    {
        self.feature.as_ref()
    }
}

} // verus!
