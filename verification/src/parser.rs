//! Parsing of one artifact file into the normalized snapshot: YAML
//! frontmatter, Markdown headings and checklist items, and the shape of a
//! Gherkin feature. The YAML and Gherkin grammars are those of the
//! `serde_yaml` and `gherkin` crates; what the library does with their
//! results is verified here.
use crate::artifact::{
    meta_insert, ArtifactKind, ArtifactPath, ArtifactSnapshot, Entry, MValue, Metadata,
    MetadataValue, SnapshotView,
};
use crate::copy::{view_seq, Duplicate};
use crate::diagnostic::{at_line, diag_view, lemma_at_line, DiagView, Diagnostic, Location, Severity};
use crate::document::{
    ChecklistItem, DocView, DocumentSnapshot, FeatureSnapshot, FeatureView, Heading, HeadingView,
    ItemView, LineView, SourceLine,
};
use crate::identity::join;
use crate::text::{
    cat, chars_of, chars_split, chars_strip_prefix, chars_trim, chars_trim_end, chars_trim_start,
    chars_upper, lines, owned, split, starts_with, strip_cr, strip_prefix, string_of, trim,
    trim_end, trim_start, upper,
};
use vstd::prelude::*;

verus! {

broadcast use vstd::string::group_string_axioms;

// ---------------------------------------------------------------------------
// YAML values
// ---------------------------------------------------------------------------
/// A YAML value inside a sequence, as far as frontmatter reads it.
#[derive(Clone, Debug, PartialEq, Eq)]
pub enum YamlItem {
    /// A string.
    Text(String),
    /// A boolean.
    Flag(bool),
    /// A number, in the text the YAML library writes for it.
    Number(String),
    /// A null, sequence, mapping or tagged value.
    Other,
}

/// The content of a YAML sequence item.
pub enum YamlItemView {
    Text(Seq<char>),
    Flag(bool),
    Number(Seq<char>),
    Other,
}

impl View for YamlItem {
    type V = YamlItemView;

    open spec fn view(&self) -> YamlItemView {
        match self {
            YamlItem::Text(s) => YamlItemView::Text(s@),
            YamlItem::Flag(b) => YamlItemView::Flag(*b),
            YamlItem::Number(n) => YamlItemView::Number(n@),
            YamlItem::Other => YamlItemView::Other,
        }
    }
}

/// A YAML value of a frontmatter field.
#[derive(Clone, Debug, PartialEq, Eq)]
pub enum YamlNode {
    /// A null.
    Null,
    /// A string.
    Text(String),
    /// A boolean.
    Flag(bool),
    /// A number, in the text the YAML library writes for it.
    Number(String),
    /// A sequence.
    Sequence(Vec<YamlItem>),
    /// A mapping.
    Mapping,
    /// A tagged value.
    Tagged,
}

/// The content of a YAML field value.
pub enum YamlNodeView {
    Null,
    Text(Seq<char>),
    Flag(bool),
    Number(Seq<char>),
    Sequence(Seq<YamlItemView>),
    Mapping,
    Tagged,
}

impl View for YamlNode {
    type V = YamlNodeView;

    open spec fn view(&self) -> YamlNodeView {
        match self {
            YamlNode::Null => YamlNodeView::Null,
            YamlNode::Text(s) => YamlNodeView::Text(s@),
            YamlNode::Flag(b) => YamlNodeView::Flag(*b),
            YamlNode::Number(n) => YamlNodeView::Number(n@),
            YamlNode::Sequence(v) => YamlNodeView::Sequence(view_seq(v@)),
            YamlNode::Mapping => YamlNodeView::Mapping,
            YamlNode::Tagged => YamlNodeView::Tagged,
        }
    }
}

/// A decoded YAML document: the fields of a mapping, each with its key when
/// the key is a string, or another kind of document.
#[derive(Clone, Debug, PartialEq, Eq)]
pub enum YamlDocument {
    /// A mapping, in document order.
    Mapping(Vec<(Option<String>, YamlNode)>),
    /// Any other value.
    Other,
}

/// The content of a field key.
pub open spec fn key_view(k: Option<String>) -> Option<Seq<char>> {
    match k {
        Some(s) => Some(s@),
        None => None,
    }
}

/// The content of mapping fields.
pub open spec fn field_views(v: Seq<(Option<String>, YamlNode)>) -> Seq<(Option<Seq<char>>, YamlNodeView)> {
    v.map_values(|e: (Option<String>, YamlNode)| (key_view(e.0), e.1@))
}

/// The content of a decoded YAML document.
pub enum YamlDocView {
    Mapping(Seq<(Option<Seq<char>>, YamlNodeView)>),
    Other,
}

impl View for YamlDocument {
    type V = YamlDocView;

    open spec fn view(&self) -> YamlDocView {
        match self {
            YamlDocument::Mapping(v) => YamlDocView::Mapping(field_views(v@)),
            YamlDocument::Other => YamlDocView::Other,
        }
    }
}

/// What `serde_yaml` decodes from a text: the document, or the text of its
/// error.
pub uninterp spec fn yaml_decoded(text: Seq<char>) -> Result<YamlDocView, Seq<char>>;

/// Declares `serde_yaml::Value`, opaque, so that the converters below can
/// take it.
#[verifier::external_type_specification]
#[verifier::external_body]
pub struct ExYamlValue(serde_yaml::Value);

/// Part of `decode_yaml`'s conversion: one `serde_yaml::Value` as a
/// sequence item, one arm per variant, a number through the `Display` of
/// `serde_yaml::Number`. It claims nothing itself; `decode_yaml`'s contract
/// covers the whole decoding.
#[verifier::external_body]
fn yaml_item(v: serde_yaml::Value) -> YamlItem {
    match v {
        serde_yaml::Value::String(s) => YamlItem::Text(s),
        serde_yaml::Value::Bool(b) => YamlItem::Flag(b),
        serde_yaml::Value::Number(n) => YamlItem::Number(n.to_string()),
        serde_yaml::Value::Null => YamlItem::Other,
        serde_yaml::Value::Sequence(_) => YamlItem::Other,
        serde_yaml::Value::Mapping(_) => YamlItem::Other,
        serde_yaml::Value::Tagged(_) => YamlItem::Other,
    }
}

/// Part of `decode_yaml`'s conversion: one `serde_yaml::Value` as a field
/// value, one arm per variant, a number through the `Display` of
/// `serde_yaml::Number` and a sequence item by item. It claims nothing
/// itself; `decode_yaml`'s contract covers the whole decoding.
#[verifier::external_body]
fn yaml_node(v: serde_yaml::Value) -> YamlNode {
    match v {
        serde_yaml::Value::Null => YamlNode::Null,
        serde_yaml::Value::String(s) => YamlNode::Text(s),
        serde_yaml::Value::Bool(b) => YamlNode::Flag(b),
        serde_yaml::Value::Number(n) => YamlNode::Number(n.to_string()),
        serde_yaml::Value::Sequence(items) => YamlNode::Sequence(items.into_iter().map(yaml_item).collect()),
        serde_yaml::Value::Mapping(_) => YamlNode::Mapping,
        serde_yaml::Value::Tagged(_) => YamlNode::Tagged,
    }
}

/// Decodes YAML text with `serde_yaml::from_str` into a `serde_yaml::Value`
/// and converts it variant by variant; a mapping keeps its fields in
/// document order, each key as `Value::as_str` reads it. The result is
/// claimed to depend on the text alone; an error is returned as its
/// display text.
#[verifier::external_body]
fn decode_yaml(yaml: &str) -> (res: Result<YamlDocument, String>)
    ensures
        match res {
            Ok(d) => yaml_decoded(yaml@) == Ok::<YamlDocView, Seq<char>>(d@),
            Err(e) => yaml_decoded(yaml@) == Err::<YamlDocView, Seq<char>>(e@),
        },
{
    match serde_yaml::from_str::<serde_yaml::Value>(yaml) {
        Ok(serde_yaml::Value::Mapping(m)) => Ok(YamlDocument::Mapping(
            m.into_iter().map(|(k, v)| (k.as_str().map(str::to_owned), yaml_node(v))).collect(),
        )),
        Ok(_) => Ok(YamlDocument::Other),
        Err(e) => Err(e.to_string()),
    }
}

// ---------------------------------------------------------------------------
// Gherkin features
// ---------------------------------------------------------------------------
/// The kind of a Gherkin step.
#[derive(Clone, Copy, Debug, PartialEq, Eq, Structural)]
pub enum StepKind {
    /// A `Given` step.
    Given,
    /// A `When` step.
    When,
    /// A `Then` step.
    Then,
}

/// A parsed Gherkin feature: its name, the step kinds of each of its own
/// scenarios, and those of each scenario of each of its rules.
#[derive(Clone, Debug, PartialEq, Eq)]
pub struct ParsedFeature {
    pub name: String,
    pub scenarios: Vec<Vec<StepKind>>,
    pub rules: Vec<Vec<Vec<StepKind>>>,
}

/// The content of a parsed feature.
pub struct ParsedFeatureView {
    pub name: Seq<char>,
    pub scenarios: Seq<Seq<StepKind>>,
    pub rules: Seq<Seq<Seq<StepKind>>>,
}

impl View for ParsedFeature {
    type V = ParsedFeatureView;

    open spec fn view(&self) -> ParsedFeatureView {
        ParsedFeatureView {
            name: self.name@,
            scenarios: self.scenarios@.map_values(|s: Vec<StepKind>| s@),
            rules: self.rules@.map_values(
                |r: Vec<Vec<StepKind>>| r@.map_values(|s: Vec<StepKind>| s@),
            ),
        }
    }
}

/// What `gherkin` parses from a text with the default environment: the
/// feature, or `None` when the text is not a feature.
pub uninterp spec fn gherkin_parsed(text: Seq<char>) -> Option<ParsedFeatureView>;

/// Parses a feature with `gherkin::Feature::parse` and the default
/// environment, converting its name, the step kinds of its scenarios and
/// those of its rules' scenarios one for one. It claims that whether the
/// parse succeeds, and the feature it gives, depend on the text alone. The
/// error is returned as its display text, of which nothing is claimed: it
/// lists the expected tokens from a `HashSet`, in an order that may differ
/// from one call to the next.
#[verifier::external_body]
fn parse_gherkin_text(contents: &str) -> (res: Result<ParsedFeature, String>)
    ensures
        res is Ok <==> gherkin_parsed(contents@) is Some,
        res matches Ok(f) ==> gherkin_parsed(contents@) == Some(f@),
{
    let steps = |s: &gherkin::Scenario| -> Vec<StepKind> {
        s.steps.iter().map(|st| match st.ty {
            gherkin::StepType::Given => StepKind::Given,
            gherkin::StepType::When => StepKind::When,
            gherkin::StepType::Then => StepKind::Then,
        }).collect()
    };
    gherkin::Feature::parse(contents, gherkin::GherkinEnv::default()).map(|f| ParsedFeature {
        name: f.name,
        scenarios: f.scenarios.iter().map(steps).collect(),
        rules: f.rules.iter().map(|r| r.scenarios.iter().map(steps).collect()).collect(),
    }).map_err(|e| e.to_string())
}

/// Runs the `pulldown_cmark` Markdown parser over the text and discards its
/// events; nothing is claimed of it.
#[verifier::external_body]
fn scan_markdown(contents: &str) {
    let _ = pulldown_cmark::Parser::new(contents).count();
}


// ---------------------------------------------------------------------------
// What a file parses to
// ---------------------------------------------------------------------------
/// The source lines of a text, numbered from one.
pub open spec fn source_lines_of(text: Seq<char>) -> Seq<LineView> {
    lines(text).map(|i: int, t: Seq<char>| LineView { line: (i + 1) as usize, text: t })
}

/// Number of leading `#` characters.
pub open spec fn hash_count(s: Seq<char>) -> nat
    decreases s.len(),
{
    if s.len() > 0 && s[0] == '#' {
        1 + hash_count(s.drop_first())
    } else {
        0
    }
}

/// Number of trailing `#` characters.
pub open spec fn trailing_hashes(s: Seq<char>) -> nat
    decreases s.len(),
{
    if s.len() > 0 && s.last() == '#' {
        1 + trailing_hashes(s.drop_last())
    } else {
        0
    }
}

/// ASCII whitespace as `u8::is_ascii_whitespace` defines it.
pub open spec fn ascii_ws(c: char) -> bool {
    c == ' ' || c == '\t' || c == '\n' || c == '\x0C' || c == '\r'
}

/// The heading a line holds: one to six `#`, whitespace, and text; the text
/// without trailing `#` and surrounding whitespace.
pub open spec fn heading_of(l: LineView) -> Option<HeadingView> {
    let t = trim_start(l.text);
    let level = hash_count(t);
    if !(1 <= level <= 6) {
        None
    } else {
        let text = trim_start(t.skip(level as int));
        if text.len() == 0 || !(t.len() > level && ascii_ws(t[level as int])) {
            None
        } else {
            Some(
                HeadingView {
                    level: level as u8,
                    text: trim(text.take(text.len() - trailing_hashes(text))),
                    line: l.line,
                },
            )
        }
    }
}

/// The text after a list marker and `[`.
pub open spec fn checklist_marker(t: Seq<char>) -> Option<Seq<char>> {
    if starts_with(t, "- ["@) {
        Some(t.skip(3))
    } else if starts_with(t, "* ["@) {
        Some(t.skip(3))
    } else if starts_with(t, "+ ["@) {
        Some(t.skip(3))
    } else {
        None
    }
}

/// The checklist item a line holds: a list marker, `[x]`, `[X]` or `[ ]`,
/// a space and the text.
pub open spec fn checklist_of(l: LineView) -> Option<ItemView> {
    match checklist_marker(trim_start(l.text)) {
        None => None,
        Some(m) => if m.len() > 0 && (m[0] == 'x' || m[0] == 'X' || m[0] == ' ') {
            match strip_prefix(m.skip(1), "] "@) {
                Some(text) => Some(ItemView { checked: m[0] != ' ', text, line: l.line }),
                None => None,
            }
        } else {
            None
        },
    }
}

/// The value of the first line that, trimmed, begins with `prefix`.
pub open spec fn header_value(ls: Seq<LineView>, prefix: Seq<char>) -> Option<Seq<char>>
    decreases ls.len(),
{
    if ls.len() == 0 {
        None
    } else {
        match strip_prefix(trim(ls[0].text), prefix) {
            Some(v) => Some(trim(v)),
            None => header_value(ls.drop_first(), prefix),
        }
    }
}

/// The scenarios of a feature: its own, then those of each rule in order.
pub open spec fn all_scenarios(p: ParsedFeatureView) -> Seq<Seq<StepKind>> {
    p.scenarios + p.rules.flat_map(|r: Seq<Seq<StepKind>>| r)
}

/// Some scenario has a step of kind `k`.
pub open spec fn has_step(scenarios: Seq<Seq<StepKind>>, k: StepKind) -> bool {
    exists|i: int, j: int|
        0 <= i < scenarios.len() && 0 <= j < scenarios[i].len() && #[trigger] scenarios[i][j] == k
}

/// The normalized shape of a parsed feature: every scenario, the rules'
/// included, counts and contributes its steps.
pub open spec fn feature_of(p: ParsedFeatureView, parent: Option<Seq<char>>, status: Option<Seq<char>>) -> FeatureView {
    FeatureView {
        parent,
        status,
        name: Some(p.name),
        scenario_count: all_scenarios(p).len() as usize,
        has_given: has_step(all_scenarios(p), StepKind::Given),
        has_when: has_step(all_scenarios(p), StepKind::When),
        has_then: has_step(all_scenarios(p), StepKind::Then),
    }
}

/// A finding of the parser, with the kind's token in its rule.
pub open spec fn parser_finding(
    path: Seq<char>,
    kind: ArtifactKind,
    rule: Seq<char>,
    location: Option<Location>,
    message: Seq<char>,
    remediation: Seq<char>,
) -> DiagView {
    diag_view(
        path,
        location,
        "ARTIFACT."@ + upper(kind.token_text()) + "."@ + rule,
        Severity::Error,
        message,
        remediation,
    )
}

/// The text of a boolean.
pub open spec fn bool_text(b: bool) -> Seq<char> {
    if b {
        "true"@
    } else {
        "false"@
    }
}

/// The text of a sequence item, when it is a scalar.
pub open spec fn item_text(i: YamlItemView) -> Option<Seq<char>> {
    match i {
        YamlItemView::Text(s) => Some(s),
        YamlItemView::Flag(b) => Some(bool_text(b)),
        YamlItemView::Number(n) => Some(n),
        YamlItemView::Other => None,
    }
}

/// The metadata value of a YAML value: scalars as text, sequences of
/// scalars as texts, anything else as a mapping.
pub open spec fn normalized(n: YamlNodeView) -> MValue {
    match n {
        YamlNodeView::Null => MValue::Null,
        YamlNodeView::Text(s) => MValue::Scalar(s),
        YamlNodeView::Flag(b) => MValue::Scalar(bool_text(b)),
        YamlNodeView::Number(t) => MValue::Scalar(t),
        YamlNodeView::Sequence(items) => if forall|i: int|
            0 <= i < items.len() ==> (#[trigger] item_text(items[i])) is Some {
            MValue::Sequence(items.map_values(|x: YamlItemView| item_text(x)->0))
        } else {
            MValue::Mapping
        },
        _ => MValue::Mapping,
    }
}

/// The metadata of the fields with string keys, set in document order.
pub open spec fn yaml_metadata(fields: Seq<(Option<Seq<char>>, YamlNodeView)>) -> Seq<Entry>
    decreases fields.len(),
{
    if fields.len() == 0 {
        Seq::empty()
    } else {
        let m = yaml_metadata(fields.drop_last());
        match fields.last().0 {
            Some(name) => meta_insert(m, name, normalized(fields.last().1)),
            None => m,
        }
    }
}

/// The finding for a field whose key is not a string.
pub open spec fn key_finding(
    path: Seq<char>,
    kind: ArtifactKind,
    f: (Option<Seq<char>>, YamlNodeView),
) -> Seq<DiagView> {
    if f.0 is None {
        seq![
            parser_finding(
                path,
                kind,
                "FRONTMATTER_KEY"@,
                Some(at_line(2)),
                "frontmatter contains a non-string field name"@,
                "use a plain string as every frontmatter field name"@,
            ),
        ]
    } else {
        seq![]
    }
}

/// Metadata and findings from a decoded frontmatter.
pub open spec fn decoded_frontmatter(
    path: Seq<char>,
    kind: ArtifactKind,
    decoded: Result<YamlDocView, Seq<char>>,
) -> (Seq<Entry>, Seq<DiagView>) {
    match decoded {
        Err(e) => (
            Seq::empty(),
            seq![
                parser_finding(
                    path,
                    kind,
                    "FRONTMATTER_PARSE"@,
                    Some(at_line(2)),
                    "frontmatter YAML could not be parsed: "@ + e,
                    "repair the YAML frontmatter syntax"@,
                ),
            ],
        ),
        Ok(YamlDocView::Other) => (
            Seq::empty(),
            seq![
                parser_finding(
                    path,
                    kind,
                    "FRONTMATTER_SHAPE"@,
                    Some(at_line(2)),
                    "frontmatter must be a YAML mapping"@,
                    "put named metadata fields below the opening `---` line"@,
                ),
            ],
        ),
        Ok(YamlDocView::Mapping(fields)) => (
            yaml_metadata(fields),
            fields.flat_map(|f: (Option<Seq<char>>, YamlNodeView)| key_finding(path, kind, f)),
        ),
    }
}

/// The index of the first separator line at or after `from`.
pub open spec fn first_separator(ls: Seq<Seq<char>>, from: int) -> Option<int>
    decreases ls.len() - from,
{
    if from < 0 || from >= ls.len() {
        None
    } else if trim(ls[from]) == "---"@ {
        Some(from)
    } else {
        first_separator(ls, from + 1)
    }
}

/// The finding for a Markdown file without frontmatter.
pub open spec fn missing_frontmatter(path: Seq<char>, kind: ArtifactKind) -> DiagView {
    parser_finding(
        path,
        kind,
        "FRONTMATTER_REQUIRED"@,
        Some(at_line(1)),
        "active Markdown artifact has no YAML frontmatter"@,
        "add YAML frontmatter between opening and closing `---` lines"@,
    )
}

/// Metadata and findings of a Markdown file's frontmatter.
pub open spec fn frontmatter_of(path: Seq<char>, kind: ArtifactKind, text: Seq<char>) -> (Seq<Entry>, Seq<DiagView>) {
    let ls = lines(text);
    if ls.len() == 0 || trim(ls[0]) != "---"@ {
        (Seq::empty(), seq![missing_frontmatter(path, kind)])
    } else {
        match first_separator(ls, 1) {
            None => (
                Seq::empty(),
                seq![
                    parser_finding(
                        path,
                        kind,
                        "FRONTMATTER_PARSE"@,
                        Some(at_line(1)),
                        "frontmatter is not closed by a separator"@,
                        "add a closing `---` line after the YAML frontmatter"@,
                    ),
                ],
            ),
            Some(end) => decoded_frontmatter(path, kind, yaml_decoded(join(ls.subrange(1, end), "\n"@))),
        }
    }
}

/// The document of a Markdown file.
pub open spec fn markdown_doc(ls: Seq<LineView>) -> DocView {
    DocView {
        lines: ls,
        headings: ls.flat_map(
            |l: LineView|
                match heading_of(l) {
                    Some(h) => seq![h],
                    None => seq![],
                },
        ),
        items: ls.flat_map(
            |l: LineView|
                match checklist_of(l) {
                    Some(c) => seq![c],
                    None => seq![],
                },
        ),
        feature: None,
    }
}

/// The document and findings of a Gherkin file, from what the parser gave.
pub open spec fn gherkin_doc(
    path: Seq<char>,
    ls: Seq<LineView>,
    parsed: Result<ParsedFeatureView, Seq<char>>,
) -> (DocView, Seq<DiagView>) {
    let parent = header_value(ls, "# parent:"@);
    let status = header_value(ls, "# status:"@);
    match parsed {
        Ok(p) => (
            DocView {
                lines: ls,
                headings: seq![],
                items: seq![],
                feature: Some(feature_of(p, parent, status)),
            },
            seq![],
        ),
        Err(e) => (
            DocView { lines: ls, headings: seq![], items: seq![], feature: None },
            seq![
                parser_finding(
                    path,
                    ArtifactKind::Gherkin,
                    "GHERKIN_PARSE"@,
                    None,
                    "Gherkin content could not be parsed: "@ + e,
                    "repair the Feature, Scenario, and step syntax"@,
                ),
            ],
        ),
    }
}

/// What the Gherkin parser gave for a text, with `error` as the text of its
/// error when it failed.
pub open spec fn gherkin_outcome(text: Seq<char>, error: Seq<char>) -> Result<ParsedFeatureView, Seq<char>> {
    match gherkin_parsed(text) {
        Some(f) => Ok(f),
        None => Err(error),
    }
}

/// The snapshot that a file parses to, with `error` as the text of the
/// Gherkin parser's error when it failed.
pub open spec fn parsed_snapshot(path: Seq<char>, kind: ArtifactKind, text: Seq<char>, error: Seq<char>) -> SnapshotView {
    let ls = source_lines_of(text);
    let front = if kind == ArtifactKind::Gherkin {
        (Seq::<Entry>::empty(), Seq::<DiagView>::empty())
    } else {
        frontmatter_of(path, kind, text)
    };
    let doc = if kind == ArtifactKind::Gherkin {
        gherkin_doc(path, ls, gherkin_outcome(text, error))
    } else {
        (markdown_doc(ls), Seq::<DiagView>::empty())
    };
    SnapshotView {
        path,
        kind,
        id: crate::artifact::snapshot_id(kind, front.0),
        metadata: front.0,
        document: doc.0,
        parser: front.1 + doc.1,
    }
}


// ---------------------------------------------------------------------------
// Lines, headings and checklist items
// ---------------------------------------------------------------------------
/// The source lines of a text, numbered from one.
pub fn source_lines(contents: &str) -> (res: Vec<SourceLine>)
    ensures
        view_seq(res@) == source_lines_of(contents@),
{
    let chars = chars_of(contents);
    let ls = crate::text::chars_lines(chars.as_slice());
    let ghost lv = lines(contents@);
    let mut out: Vec<SourceLine> = Vec::new();
    let mut i: usize = 0;
    while i < ls.len()
        invariant
            i <= ls@.len(),
            ls@.map_values(|p: Vec<char>| p@) == lv,
            lv == lines(contents@),
            out@.len() == i,
            forall|k: int|
                0 <= k < i ==> (#[trigger] out@[k])@ == (LineView { line: (k + 1) as usize, text: lv[k] }),
        decreases ls@.len() - i,
    {
        proof {
            assert(ls@[i as int]@ == lv[i as int]);
        }
        let text = string_of(ls[i].as_slice());
        out.push(SourceLine::from_string(i + 1, text));
        i = i + 1;
    }
    proof {
        assert(view_seq(out@) =~= source_lines_of(contents@));
    }
    out
}

fn hash_count_of(s: &[char]) -> (res: usize)
    ensures
        res == hash_count(s@),
        res <= s@.len(),
{
    let mut i: usize = 0;
    proof {
        assert(s@.skip(0) =~= s@);
    }
    while i < s.len() && s[i] == '#'
        invariant
            i <= s@.len(),
            hash_count(s@) == i + hash_count(s@.skip(i as int)),
        decreases s@.len() - i,
    {
        proof {
            assert(s@.skip(i as int).drop_first() =~= s@.skip(i + 1));
        }
        i = i + 1;
    }
    i
}

fn trailing_hashes_of(s: &[char]) -> (res: usize)
    ensures
        res == trailing_hashes(s@),
        res <= s@.len(),
{
    let mut n: usize = 0;
    proof {
        assert(s@.take(s@.len() as int) =~= s@);
    }
    while n < s.len() && s[s.len() - 1 - n] == '#'
        invariant
            n <= s@.len(),
            trailing_hashes(s@) == n + trailing_hashes(s@.take(s@.len() - n)),
        decreases s@.len() - n,
    {
        proof {
            assert(s@.take(s@.len() - n).drop_last() =~= s@.take(s@.len() - n - 1));
        }
        n = n + 1;
    }
    n
}

fn is_ascii_ws(c: char) -> (res: bool)
    ensures
        res == ascii_ws(c),
{
    c == ' ' || c == '\t' || c == '\n' || c == '\x0C' || c == '\r'
}

/// The heading a source line holds.
pub fn parse_heading(line: &SourceLine) -> (res: Option<Heading>)
    ensures
        match res {
            Some(h) => heading_of(line@) == Some(h@),
            None => heading_of(line@) is None,
        },
{
    let chars = chars_of(line.text());
    let t = chars_trim_start(chars.as_slice());
    let level = hash_count_of(t.as_slice());
    if level < 1 || level > 6 {
        return None;
    }
    let rest = crate::text::sub_chars(t.as_slice(), level, t.len());
    let text = chars_trim_start(rest.as_slice());
    if text.len() == 0 || !(t.len() > level && is_ascii_ws(t[level])) {
        return None;
    }
    let k = trailing_hashes_of(text.as_slice());
    let stem = crate::text::sub_chars(text.as_slice(), 0, text.len() - k);
    let trimmed = chars_trim(stem.as_slice());
    let lvl: u8 = level as u8;
    proof {
        assert(lvl as nat == hash_count(t@));
    }
    Some(Heading::from_string(lvl, string_of(trimmed.as_slice()), line.line()))
}

/// The checklist item a source line holds.
pub fn parse_checklist(line: &SourceLine) -> (res: Option<ChecklistItem>)
    ensures
        match res {
            Some(c) => checklist_of(line@) == Some(c@),
            None => checklist_of(line@) is None,
        },
{
    let chars = chars_of(line.text());
    let t = chars_trim_start(chars.as_slice());
    let dash = chars_of("- [");
    let star = chars_of("* [");
    let plus = chars_of("+ [");
    let marker = match chars_strip_prefix(t.as_slice(), dash.as_slice()) {
        Some(m) => Some(m),
        None => match chars_strip_prefix(t.as_slice(), star.as_slice()) {
            Some(m) => Some(m),
            None => chars_strip_prefix(t.as_slice(), plus.as_slice()),
        },
    };
    proof {
        reveal_strlit("- [");
        reveal_strlit("* [");
        reveal_strlit("+ [");
    }
    match marker {
        None => None,
        Some(m) => {
            if m.len() == 0 {
                return None;
            }
            let c = m[0];
            if !(c == 'x' || c == 'X' || c == ' ') {
                return None;
            }
            let after = crate::text::sub_chars(m.as_slice(), 1, m.len());
            let close = chars_of("] ");
            match chars_strip_prefix(after.as_slice(), close.as_slice()) {
                Some(text) => Some(ChecklistItem::from_string(c != ' ', string_of(text.as_slice()), line.line())),
                None => None,
            }
        },
    }
}

fn header_value_of(lines: &[SourceLine], prefix: &str) -> (res: Option<String>)
    ensures
        match res {
            Some(v) => header_value(view_seq(lines@), prefix@) == Some(v@),
            None => header_value(view_seq(lines@), prefix@) is None,
        },
{
    let ghost ls = view_seq(lines@);
    let p = chars_of(prefix);
    let mut i: usize = 0;
    proof {
        assert(ls.skip(0) =~= ls);
    }
    while i < lines.len()
        invariant
            i <= lines@.len(),
            ls == view_seq(lines@),
            p@ == prefix@,
            header_value(ls, prefix@) == header_value(ls.skip(i as int), prefix@),
        decreases lines@.len() - i,
    {
        proof {
            assert(ls.skip(i as int)[0] == lines@[i as int]@);
            assert(ls.skip(i as int).drop_first() =~= ls.skip(i + 1));
        }
        let text = chars_of(lines[i].text());
        let t = chars_trim(text.as_slice());
        match chars_strip_prefix(t.as_slice(), p.as_slice()) {
            Some(v) => {
                let value = chars_trim(v.as_slice());
                return Some(string_of(value.as_slice()));
            },
            None => {},
        }
        i = i + 1;
    }
    None
}

fn copy_steps(steps: &Vec<StepKind>) -> (res: Vec<StepKind>)
    ensures
        res@ == steps@,
{
    let mut out: Vec<StepKind> = Vec::new();
    let mut j: usize = 0;
    while j < steps.len()
        invariant
            j <= steps@.len(),
            out@ == steps@.take(j as int),
        decreases steps@.len() - j,
    {
        out.push(steps[j]);
        proof {
            assert(steps@.take(j + 1) =~= steps@.take(j as int).push(steps@[j as int]));
        }
        j = j + 1;
    }
    proof {
        assert(steps@.take(steps@.len() as int) =~= steps@);
    }
    out
}

/// The step kinds of every scenario of a feature: its own scenarios, then
/// those of each rule in order.
fn scenario_steps(parsed: &ParsedFeature) -> (res: Vec<Vec<StepKind>>)
    ensures
        res@.map_values(|s: Vec<StepKind>| s@) == all_scenarios(parsed@),
{
    let ghost pv = parsed@;
    let ghost id = |r: Seq<Seq<StepKind>>| r;
    let mut out: Vec<Vec<StepKind>> = Vec::new();
    let mut i: usize = 0;
    while i < parsed.scenarios.len()
        invariant
            i <= parsed.scenarios@.len(),
            pv == parsed@,
            out@.map_values(|s: Vec<StepKind>| s@) == pv.scenarios.take(i as int),
        decreases parsed.scenarios@.len() - i,
    {
        let s = copy_steps(&parsed.scenarios[i]);
        let ghost before = out@;
        out.push(s);
        proof {
            assert(out@ == before.push(s));
            assert(pv.scenarios[i as int] == parsed.scenarios@[i as int]@);
            assert(out@.map_values(|s: Vec<StepKind>| s@) =~= before.map_values(|s: Vec<StepKind>| s@).push(s@));
            assert(out@.map_values(|s: Vec<StepKind>| s@) =~= pv.scenarios.take(i + 1));
        }
        i = i + 1;
    }
    proof {
        assert(pv.scenarios.take(pv.scenarios.len() as int) =~= pv.scenarios);
        assert(pv.rules.take(0).flat_map(id) =~= Seq::<Seq<StepKind>>::empty());
        assert(pv.scenarios + pv.rules.take(0).flat_map(id) =~= pv.scenarios);
    }
    let mut r: usize = 0;
    while r < parsed.rules.len()
        invariant
            r <= parsed.rules@.len(),
            pv == parsed@,
            id == (|r: Seq<Seq<StepKind>>| r),
            out@.map_values(|s: Vec<StepKind>| s@) == pv.scenarios + pv.rules.take(r as int).flat_map(id),
        decreases parsed.rules@.len() - r,
    {
        let rule = &parsed.rules[r];
        let ghost base = pv.scenarios + pv.rules.take(r as int).flat_map(id);
        proof {
            assert(rule@.map_values(|s: Vec<StepKind>| s@) == pv.rules[r as int]);
            assert(base + pv.rules[r as int].take(0) =~= base);
        }
        let mut k: usize = 0;
        while k < rule.len()
            invariant
                k <= rule@.len(),
                r < pv.rules.len(),
                rule@.map_values(|s: Vec<StepKind>| s@) == pv.rules[r as int],
                out@.map_values(|s: Vec<StepKind>| s@) == base + pv.rules[r as int].take(k as int),
            decreases rule@.len() - k,
        {
            let s = copy_steps(&rule[k]);
            let ghost before = out@;
            out.push(s);
            proof {
                assert(out@ == before.push(s));
                assert(pv.rules[r as int][k as int] == rule@[k as int]@);
                assert(out@.map_values(|s: Vec<StepKind>| s@) =~= before.map_values(|s: Vec<StepKind>| s@).push(s@));
                assert(out@.map_values(|s: Vec<StepKind>| s@) =~= base + pv.rules[r as int].take(k + 1));
            }
            k = k + 1;
        }
        proof {
            assert(pv.rules[r as int].take(rule@.len() as int) =~= pv.rules[r as int]);
            assert(pv.rules.take(r + 1) =~= pv.rules.take(r as int).push(pv.rules[r as int]));
            pv.rules.take(r as int).lemma_flat_map_push(id, pv.rules[r as int]);
            assert(base + pv.rules[r as int] =~= pv.scenarios + pv.rules.take(r + 1).flat_map(id));
        }
        r = r + 1;
    }
    proof {
        assert(pv.rules.take(pv.rules.len() as int) =~= pv.rules);
    }
    out
}

/// The normalized shape of a parsed feature with its headers.
pub fn feature_snapshot(
    parsed: &ParsedFeature,
    parent: Option<String>,
    status: Option<String>,
) -> (res: FeatureSnapshot)
    ensures
        res@ == feature_of(parsed@, crate::document::opt_view(parent), crate::document::opt_view(status)),
{
    let all = scenario_steps(parsed);
    let ghost sc = all_scenarios(parsed@);
    let mut seen_given = false;
    let mut seen_when = false;
    let mut seen_then = false;
    let mut count: usize = 0;
    let mut i: usize = 0;
    while i < all.len()
        invariant
            i <= all@.len(),
            all@.map_values(|s: Vec<StepKind>| s@) == sc,
            count == i,
            seen_given == exists|a: int, b: int|
                0 <= a < i && 0 <= b < sc[a].len() && #[trigger] sc[a][b] == StepKind::Given,
            seen_when == exists|a: int, b: int|
                0 <= a < i && 0 <= b < sc[a].len() && #[trigger] sc[a][b] == StepKind::When,
            seen_then == exists|a: int, b: int|
                0 <= a < i && 0 <= b < sc[a].len() && #[trigger] sc[a][b] == StepKind::Then,
        decreases all@.len() - i,
    {
        let steps = &all[i];
        proof {
            assert(steps@ == sc[i as int]);
        }
        count = count + 1;
        let ghost g0 = seen_given;
        let ghost w0 = seen_when;
        let ghost t0 = seen_then;
        let mut j: usize = 0;
        while j < steps.len()
            invariant
                j <= steps@.len(),
                steps@ == sc[i as int],
                seen_given == (g0 || exists|b: int| 0 <= b < j && steps@[b] == StepKind::Given),
                seen_when == (w0 || exists|b: int| 0 <= b < j && steps@[b] == StepKind::When),
                seen_then == (t0 || exists|b: int| 0 <= b < j && steps@[b] == StepKind::Then),
            decreases steps@.len() - j,
        {
            match steps[j] {
                StepKind::Given => {
                    seen_given = true;
                },
                StepKind::When => {
                    seen_when = true;
                },
                StepKind::Then => {
                    seen_then = true;
                },
            }
            j = j + 1;
        }
        proof {
            if seen_given && !g0 {
                let b = choose|b: int| 0 <= b < j && steps@[b] == StepKind::Given;
                assert(sc[i as int][b] == StepKind::Given);
            }
            if seen_when && !w0 {
                let b = choose|b: int| 0 <= b < j && steps@[b] == StepKind::When;
                assert(sc[i as int][b] == StepKind::When);
            }
            if seen_then && !t0 {
                let b = choose|b: int| 0 <= b < j && steps@[b] == StepKind::Then;
                assert(sc[i as int][b] == StepKind::Then);
            }
        }
        i = i + 1;
    }
    proof {
        assert(sc.len() == all@.len());
    }
    FeatureSnapshot::new(parent, status, Some(parsed.name.duplicate()), count, seen_given, seen_when, seen_then)
}


// ---------------------------------------------------------------------------
// Frontmatter
// ---------------------------------------------------------------------------
fn bool_string(b: bool) -> (res: String)
    ensures
        res@ == bool_text(b),
{
    if b {
        owned("true")
    } else {
        owned("false")
    }
}

fn item_string(i: &YamlItem) -> (res: Option<String>)
    ensures
        match res {
            Some(t) => item_text(i@) == Some(t@),
            None => item_text(i@) is None,
        },
{
    match i {
        YamlItem::Text(s) => Some(s.duplicate()),
        YamlItem::Flag(b) => Some(bool_string(*b)),
        YamlItem::Number(n) => Some(n.duplicate()),
        YamlItem::Other => None,
    }
}

/// The metadata value of a YAML value.
pub fn normalized_value(node: &YamlNode) -> (res: MetadataValue)
    ensures
        res@ == normalized(node@),
{
    match node {
        YamlNode::Null => MetadataValue::Null,
        YamlNode::Text(s) => MetadataValue::Scalar(s.duplicate()),
        YamlNode::Flag(b) => MetadataValue::Scalar(bool_string(*b)),
        YamlNode::Number(n) => MetadataValue::Scalar(n.duplicate()),
        YamlNode::Sequence(items) => {
            let ghost iv = view_seq(items@);
            let mut texts: Vec<String> = Vec::new();
            let mut i: usize = 0;
            while i < items.len()
                invariant
                    i <= items@.len(),
                    iv == view_seq(items@),
                    node@ == YamlNodeView::Sequence(iv),
                    texts@.len() == i,
                    forall|k: int| 0 <= k < i ==> (#[trigger] item_text(iv[k])) is Some,
                    forall|k: int| 0 <= k < i ==> Some((#[trigger] texts@[k])@) == item_text(iv[k]),
                decreases items@.len() - i,
            {
                proof {
                    assert(items@[i as int]@ == iv[i as int]);
                }
                match item_string(&items[i]) {
                    Some(t) => {
                        texts.push(t);
                    },
                    None => {
                        proof {
                            assert(!(forall|k: int| 0 <= k < iv.len() ==> (#[trigger] item_text(iv[k])) is Some));
                        }
                        return MetadataValue::Mapping;
                    },
                }
                i = i + 1;
            }
            proof {
                assert(view_seq(texts@) =~= iv.map_values(|x: YamlItemView| item_text(x)->0));
            }
            MetadataValue::Sequence(texts)
        },
        YamlNode::Mapping => MetadataValue::Mapping,
        YamlNode::Tagged => MetadataValue::Mapping,
    }
}

fn parser_diagnostic(
    path: &ArtifactPath,
    kind: ArtifactKind,
    rule: &str,
    location: Option<Location>,
    message: String,
    remediation: String,
) -> (res: Diagnostic)
    ensures
        res@ == parser_finding(path@, kind, rule@, location, message@, remediation@),
{
    let t = chars_of(kind.token());
    let up = chars_upper(t.as_slice());
    let up_text = string_of(up.as_slice());
    let rule_id = cat(cat(cat(owned("ARTIFACT."), up_text.as_str()), "."), rule);
    Diagnostic::from_parts(path.duplicate(), location, rule_id, Severity::Error, message, remediation)
}

fn line_location(line: usize) -> (res: Location)
    ensures
        res == at_line(line),
{
    let l = Location::new(line, None);
    proof {
        lemma_at_line(l, line);
    }
    l
}

/// Metadata and parser findings from what the YAML decoder gave for the
/// frontmatter of `path`.
pub fn metadata_from_yaml(
    path: &ArtifactPath,
    kind: ArtifactKind,
    decoded: Result<YamlDocument, String>,
) -> (res: (Metadata, Vec<Diagnostic>))
    ensures
        (res.0@, view_seq(res.1@)) == decoded_frontmatter(
            path@,
            kind,
            match decoded {
                Ok(d) => Ok::<YamlDocView, Seq<char>>(d@),
                Err(e) => Err::<YamlDocView, Seq<char>>(e@),
            },
        ),
{
    match decoded {
        Err(error) => {
            let message = cat(owned("frontmatter YAML could not be parsed: "), error.as_str());
            let d = parser_diagnostic(
                path,
                kind,
                "FRONTMATTER_PARSE",
                Some(line_location(2)),
                message,
                owned("repair the YAML frontmatter syntax"),
            );
            let v = vec![d];
            proof {
                assert(view_seq(v@) =~= seq![d@]);
            }
            (Metadata::new(), v)
        },
        Ok(YamlDocument::Other) => {
            let d = parser_diagnostic(
                path,
                kind,
                "FRONTMATTER_SHAPE",
                Some(line_location(2)),
                owned("frontmatter must be a YAML mapping"),
                owned("put named metadata fields below the opening `---` line"),
            );
            let v = vec![d];
            proof {
                assert(view_seq(v@) =~= seq![d@]);
            }
            (Metadata::new(), v)
        },
        Ok(YamlDocument::Mapping(fields)) => {
            let ghost fv = field_views(fields@);
            let mut metadata = Metadata::new();
            let mut diagnostics: Vec<Diagnostic> = Vec::new();
            let mut i: usize = 0;
            while i < fields.len()
                invariant
                    i <= fields@.len(),
                    fv == field_views(fields@),
                    metadata@ == yaml_metadata(fv.take(i as int)),
                    view_seq(diagnostics@) == fv.take(i as int).flat_map(
                        |f: (Option<Seq<char>>, YamlNodeView)| key_finding(path@, kind, f),
                    ),
                decreases fields@.len() - i,
            {
                let field = &fields[i];
                proof {
                    assert(fv[i as int] == (key_view(field.0), field.1@));
                    assert(fv.take(i + 1).drop_last() =~= fv.take(i as int));
                    assert(fv.take(i + 1).last() == fv[i as int]);
                    fv.lemma_flat_map_take_append(
                        |f: (Option<Seq<char>>, YamlNodeView)| key_finding(path@, kind, f),
                        i as int,
                    );
                }
                match &field.0 {
                    Some(name) => {
                        let value = normalized_value(&field.1);
                        metadata.insert(name.as_str(), value);
                        assert(view_seq(diagnostics@) =~= view_seq(diagnostics@) + Seq::<DiagView>::empty());
                    },
                    None => {
                        let d = parser_diagnostic(
                            path,
                            kind,
                            "FRONTMATTER_KEY",
                            Some(line_location(2)),
                            owned("frontmatter contains a non-string field name"),
                            owned("use a plain string as every frontmatter field name"),
                        );
                        proof {
                            crate::copy::lemma_view_seq_push(diagnostics@, d);
                        }
                        diagnostics.push(d);
                    },
                }
                i = i + 1;
            }
            proof {
                assert(fv.take(i as int) =~= fv);
            }
            (metadata, diagnostics)
        },
    }
}

/// `first_separator` on lines.
fn first_separator_of(ls: &Vec<Vec<char>>) -> (res: Option<usize>)
    ensures
        match res {
            Some(i) => first_separator(ls@.map_values(|p: Vec<char>| p@), 1) == Some(i as int),
            None => first_separator(ls@.map_values(|p: Vec<char>| p@), 1) is None,
        },
{
    let ghost lv = ls@.map_values(|p: Vec<char>| p@);
    let sep = chars_of("---");
    let mut i: usize = 1;
    while i < ls.len()
        invariant
            1 <= i,
            lv == ls@.map_values(|p: Vec<char>| p@),
            sep@ == "---"@,
            first_separator(lv, 1) == first_separator(lv, i as int),
        decreases ls@.len() - i,
    {
        proof {
            assert(ls@[i as int]@ == lv[i as int]);
        }
        let t = chars_trim(ls[i].as_slice());
        if crate::text::chars_eq(t.as_slice(), sep.as_slice()) {
            return Some(i);
        }
        i = i + 1;
    }
    None
}

/// Joins lines `from..to` with newlines.
fn join_lines(ls: &Vec<Vec<char>>, from: usize, to: usize) -> (res: String)
    requires
        1 <= from <= to <= ls@.len(),
    ensures
        res@ == join(ls@.map_values(|p: Vec<char>| p@).subrange(from as int, to as int), "\n"@),
{
    let ghost lv = ls@.map_values(|p: Vec<char>| p@);
    let mut parts: Vec<String> = Vec::new();
    let mut i = from;
    while i < to
        invariant
            from <= i <= to <= ls@.len(),
            lv == ls@.map_values(|p: Vec<char>| p@),
            view_seq(parts@) == lv.subrange(from as int, i as int),
        decreases to - i,
    {
        let text = string_of(ls[i].as_slice());
        proof {
            assert(ls@[i as int]@ == lv[i as int]);
            crate::copy::lemma_view_seq_push(parts@, text);
            assert(lv.subrange(from as int, i + 1) =~= lv.subrange(from as int, i as int).push(lv[i as int]));
        }
        parts.push(text);
        i = i + 1;
    }
    crate::identity::join_texts(parts.as_slice(), "\n")
}

/// Parses the frontmatter of a Markdown file.
fn parse_frontmatter(path: &ArtifactPath, kind: ArtifactKind, contents: &str) -> (res: (Metadata, Vec<Diagnostic>))
    ensures
        (res.0@, view_seq(res.1@)) == frontmatter_of(path@, kind, contents@),
{
    let chars = chars_of(contents);
    let ls = crate::text::chars_lines(chars.as_slice());
    let ghost lv = lines(contents@);
    let sep = chars_of("---");
    let opened = if ls.len() == 0 {
        false
    } else {
        let first = chars_trim(ls[0].as_slice());
        proof {
            assert(ls@[0]@ == lv[0]);
        }
        crate::text::chars_eq(first.as_slice(), sep.as_slice())
    };
    if !opened {
        let d = parser_diagnostic(
            path,
            kind,
            "FRONTMATTER_REQUIRED",
            Some(line_location(1)),
            owned("active Markdown artifact has no YAML frontmatter"),
            owned("add YAML frontmatter between opening and closing `---` lines"),
        );
        let v = vec![d];
        proof {
            assert(view_seq(v@) =~= seq![d@]);
        }
        return (Metadata::new(), v);
    }
    match first_separator_of(&ls) {
        None => {
            let d = parser_diagnostic(
                path,
                kind,
                "FRONTMATTER_PARSE",
                Some(line_location(1)),
                owned("frontmatter is not closed by a separator"),
                owned("add a closing `---` line after the YAML frontmatter"),
            );
            let v = vec![d];
            proof {
                assert(view_seq(v@) =~= seq![d@]);
            }
            (Metadata::new(), v)
        },
        Some(end) => {
            proof {
                lemma_first_separator_bounds(lv, 1);
            }
            let yaml = join_lines(&ls, 1, end);
            let decoded = decode_yaml(yaml.as_str());
            metadata_from_yaml(path, kind, decoded)
        },
    }
}

proof fn lemma_first_separator_bounds(ls: Seq<Seq<char>>, from: int)
    ensures
        first_separator(ls, from) is Some ==> from <= first_separator(ls, from)->0 < ls.len(),
    decreases ls.len() - from,
{
    if 0 <= from < ls.len() && trim(ls[from]) != "---"@ {
        lemma_first_separator_bounds(ls, from + 1);
    }
}


// ---------------------------------------------------------------------------
// Documents
// ---------------------------------------------------------------------------
/// The document of a Markdown file from its lines.
fn parse_markdown(contents: &str, lines: Vec<SourceLine>) -> (res: DocumentSnapshot)
    ensures
        res@ == markdown_doc(view_seq(lines@)),
{
    let ghost ls = view_seq(lines@);
    let mut headings: Vec<Heading> = Vec::new();
    let mut items: Vec<ChecklistItem> = Vec::new();
    let mut i: usize = 0;
    while i < lines.len()
        invariant
            i <= lines@.len(),
            ls == view_seq(lines@),
            view_seq(headings@) == ls.take(i as int).flat_map(
                |l: LineView|
                    match heading_of(l) {
                        Some(h) => seq![h],
                        None => seq![],
                    },
            ),
            view_seq(items@) == ls.take(i as int).flat_map(
                |l: LineView|
                    match checklist_of(l) {
                        Some(c) => seq![c],
                        None => seq![],
                    },
            ),
        decreases lines@.len() - i,
    {
        proof {
            assert(lines@[i as int]@ == ls[i as int]);
            ls.lemma_flat_map_take_append(
                |l: LineView|
                    match heading_of(l) {
                        Some(h) => seq![h],
                        None => seq![],
                    },
                i as int,
            );
            ls.lemma_flat_map_take_append(
                |l: LineView|
                    match checklist_of(l) {
                        Some(c) => seq![c],
                        None => seq![],
                    },
                i as int,
            );
        }
        match parse_heading(&lines[i]) {
            Some(h) => {
                proof {
                    crate::copy::lemma_view_seq_push(headings@, h);
                }
                headings.push(h);
            },
            None => {
                assert(view_seq(headings@) =~= view_seq(headings@) + Seq::<HeadingView>::empty());
            },
        }
        match parse_checklist(&lines[i]) {
            Some(c) => {
                proof {
                    crate::copy::lemma_view_seq_push(items@, c);
                }
                items.push(c);
            },
            None => {
                assert(view_seq(items@) =~= view_seq(items@) + Seq::<ItemView>::empty());
            },
        }
        i = i + 1;
    }
    proof {
        assert(ls.take(i as int) =~= ls);
    }
    scan_markdown(contents);
    DocumentSnapshot::new(lines, headings, items, None)
}

/// The document and parser findings of a Gherkin file from what the Gherkin
/// parser gave.
pub fn feature_from_parse(
    path: &ArtifactPath,
    lines: Vec<SourceLine>,
    parsed: Result<ParsedFeature, String>,
) -> (res: (DocumentSnapshot, Vec<Diagnostic>))
    ensures
        (res.0@, view_seq(res.1@)) == gherkin_doc(
            path@,
            view_seq(lines@),
            match parsed {
                Ok(f) => Ok::<ParsedFeatureView, Seq<char>>(f@),
                Err(e) => Err::<ParsedFeatureView, Seq<char>>(e@),
            },
        ),
{
    let parent = header_value_of(lines.as_slice(), "# parent:");
    let status = header_value_of(lines.as_slice(), "# status:");
    match parsed {
        Ok(feature) => {
            let snapshot = feature_snapshot(&feature, parent, status);
            let doc = DocumentSnapshot::new(lines, Vec::new(), Vec::new(), Some(snapshot));
            let none: Vec<Diagnostic> = Vec::new();
            proof {
                assert(view_seq(none@) =~= Seq::<DiagView>::empty());
                assert(doc@.headings =~= Seq::<HeadingView>::empty());
                assert(doc@.items =~= Seq::<ItemView>::empty());
            }
            (doc, none)
        },
        Err(error) => {
            let message = cat(owned("Gherkin content could not be parsed: "), error.as_str());
            let d = parser_diagnostic(
                path,
                ArtifactKind::Gherkin,
                "GHERKIN_PARSE",
                None,
                message,
                owned("repair the Feature, Scenario, and step syntax"),
            );
            let v = vec![d];
            let doc = DocumentSnapshot::new(lines, Vec::new(), Vec::new(), None);
            proof {
                assert(view_seq(v@) =~= seq![d@]);
                assert(doc@.headings =~= Seq::<HeadingView>::empty());
                assert(doc@.items =~= Seq::<ItemView>::empty());
            }
            (doc, v)
        },
    }
}

/// Parses one artifact into the normalized snapshot.
pub fn parse_artifact(path: ArtifactPath, kind: ArtifactKind, contents: &str) -> (res: ArtifactSnapshot)
    ensures
        exists|error: Seq<char>| res@ == parsed_snapshot(path@, kind, contents@, error),
{
    let lines = source_lines(contents);
    let ghost mut error: Seq<char> = Seq::empty();
    let (metadata, mut diagnostics) = if kind == ArtifactKind::Gherkin {
        let none: Vec<Diagnostic> = Vec::new();
        proof {
            assert(view_seq(none@) =~= Seq::<DiagView>::empty());
        }
        (Metadata::new(), none)
    } else {
        parse_frontmatter(&path, kind, contents)
    };
    let document = if kind == ArtifactKind::Gherkin {
        let parsed = parse_gherkin_text(contents);
        proof {
            error = match &parsed {
                Ok(_) => Seq::empty(),
                Err(e) => e@,
            };
            assert(gherkin_outcome(contents@, error) == match parsed {
                Ok(f) => Ok::<ParsedFeatureView, Seq<char>>(f@),
                Err(e) => Err::<ParsedFeatureView, Seq<char>>(e@),
            });
        }
        let (document, mut found) = feature_from_parse(&path, lines, parsed);
        let ghost a = view_seq(diagnostics@);
        let ghost b = view_seq(found@);
        diagnostics.append(&mut found);
        proof {
            assert(view_seq(diagnostics@) =~= a + b);
        }
        document
    } else {
        let document = parse_markdown(contents, lines);
        assert(view_seq(diagnostics@) =~= view_seq(diagnostics@) + Seq::<DiagView>::empty());
        document
    };
    let res = ArtifactSnapshot::new(path, kind, metadata, document).with_parser_diagnostics(diagnostics);
    proof {
        assert(Seq::<DiagView>::empty() + view_seq(diagnostics@) =~= view_seq(diagnostics@));
        assert(res@ == parsed_snapshot(path@, kind, contents@, error));
    }
    res
}

} // verus!
