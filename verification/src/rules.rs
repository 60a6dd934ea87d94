//! The structural rules applied to one normalized artifact.
//!
//! `artifact_findings` states the whole result: the parser findings and the
//! rule findings, stably sorted by rule, location, severity and message. The
//! rule findings are, in order, the frontmatter findings (missing fields,
//! field shapes, type, status, identifier, references), the document
//! findings (sections and checklists) or, for Gherkin, the feature findings,
//! then the placeholder findings.
use crate::artifact::{
    id_for, kind_from_path, meta_get, ArtifactKind, ArtifactPath, ArtifactSnapshot, Entry,
    MValue, Metadata, MetadataValue, SnapshotView,
};
use crate::copy::{copy_all, view_seq, Duplicate};
use crate::diagnostic::{
    at_line, diag_view, lemma_at_line, DiagView, Diagnostic, Location, Severity, StableOrder,
};
use crate::document::{DocView, DocumentSnapshot, FeatureView, HeadingView, ItemView, LineView};
use crate::order::{sort_stable, sorted_by};
use crate::text::{
    cat, chars_contain, chars_end_with, chars_eq, chars_eq_ignore_case, chars_lower, chars_numbered,
    chars_of, chars_start_with, chars_trim, chars_upper, chars_words, char_is_digit,
    contains_text, ends_with, eq_ignore_case, is_digit, is_numbered, lower, owned, starts_with,
    string_of, text_eq, text_numbered, trim, upper, words, lemma_numbered_tick_free, tick_free,
};
use vstd::prelude::*;

verus! {

broadcast use vstd::string::group_string_axioms;

// ---------------------------------------------------------------------------
// Shared vocabulary
// ---------------------------------------------------------------------------
/// The texts of a metadata value: one for a scalar, all for a sequence.
pub open spec fn value_strings(v: MValue) -> Seq<Seq<char>> {
    match v {
        MValue::Scalar(s) => seq![s],
        MValue::Sequence(vs) => vs,
        _ => Seq::empty(),
    }
}

/// The text of a scalar value.
pub open spec fn scalar_of(v: Option<MValue>) -> Option<Seq<char>> {
    match v {
        Some(MValue::Scalar(s)) => Some(s),
        _ => None,
    }
}

/// Some whitespace-separated word is `TBD` in any ASCII case.
pub open spec fn is_unresolved(v: Seq<char>) -> bool {
    exists|i: int| 0 <= i < words(v).len() && eq_ignore_case(#[trigger] words(v)[i], "TBD"@)
}

/// A word that is a template placeholder.
pub open spec fn placeholder_word(w: Seq<char>) -> bool {
    w == "NNN"@ || ends_with(w, "-NNN"@) || (starts_with(w, "<"@) && ends_with(w, ">"@))
}

/// The text holds an unreplaced template marker.
pub open spec fn is_template_marker(v: Seq<char>) -> bool {
    ||| contains_text(v, "YYYY-MM-DD"@)
    ||| contains_text(v, "{{"@)
    ||| contains_text(v, "}}"@)
    ||| exists|i: int| 0 <= i < words(v).len() && placeholder_word(#[trigger] words(v)[i])
}

/// The identifier prefixes of local references.
pub open spec fn reference_prefixes() -> Seq<Seq<char>> {
    seq![
        "PRD"@,
        "EPIC"@,
        "US"@,
        "REQ"@,
        "DES"@,
        "ADR"@,
        "TASK"@,
        "CHART"@,
        "DB"@,
        "TABLE"@,
        "OBS"@,
        "REL"@,
    ]
}

/// A local reference: a known prefix, a hyphen and three digits.
pub open spec fn valid_reference(v: Seq<char>) -> bool {
    exists|i: int|
        0 <= i < reference_prefixes().len() && is_numbered(v, #[trigger] reference_prefixes()[i])
}

/// A well-formed reference has no backtick.
pub proof fn lemma_reference_tick_free(v: Seq<char>)
    requires
        valid_reference(v),
    ensures
        tick_free(v),
{
    reveal_strlit("PRD");
    reveal_strlit("EPIC");
    reveal_strlit("US");
    reveal_strlit("REQ");
    reveal_strlit("DES");
    reveal_strlit("ADR");
    reveal_strlit("TASK");
    reveal_strlit("CHART");
    reveal_strlit("DB");
    reveal_strlit("TABLE");
    reveal_strlit("OBS");
    reveal_strlit("REL");
    let i = choose|i: int|
        0 <= i < reference_prefixes().len() && is_numbered(v, #[trigger] reference_prefixes()[i]);
    let p = reference_prefixes()[i];
    assert(tick_free(p));
    lemma_numbered_tick_free(v, p);
}

/// A reference that target resolution considers: not empty, resolved and
/// well formed.
pub open spec fn is_concrete_reference(v: Seq<char>) -> bool {
    v.len() > 0 && !is_unresolved(v) && valid_reference(v)
}

/// The allowed lifecycle statuses.
pub open spec fn allowed_statuses() -> Seq<Seq<char>> {
    seq!["draft"@, "in-review"@, "approved"@, "implemented"@, "archived"@, "released"@, "superseded"@]
}

/// The kind token in a rule identifier: the path's kind, or `unknown`.
pub open spec fn path_token(path: Seq<char>) -> Seq<char> {
    match kind_from_path(path) {
        Some(k) => k.token_text(),
        None => "unknown"@,
    }
}

/// The rule identifier prefix for findings on `path`.
pub open spec fn rule_prefix(path: Seq<char>) -> Seq<char> {
    "ARTIFACT."@ + upper(path_token(path)) + "."@
}

/// A structural finding.
pub open spec fn finding(
    path: Seq<char>,
    rule: Seq<char>,
    message: Seq<char>,
    remediation: Seq<char>,
    location: Option<Location>,
) -> DiagView {
    diag_view(path, location, rule_prefix(path) + rule, Severity::Error, message, remediation)
}

// ---------------------------------------------------------------------------
// Rule tables
// ---------------------------------------------------------------------------
/// The frontmatter fields each kind requires.
pub open spec fn required_fields(kind: ArtifactKind) -> Seq<Seq<char>> {
    match kind {
        ArtifactKind::Prd => seq![
            "id"@,
            "title"@,
            "type"@,
            "scope"@,
            "status"@,
            "created"@,
            "updated"@,
            "owner"@,
            "parent"@,
            "supersedes"@,
            "related"@,
        ],
        ArtifactKind::Epic | ArtifactKind::Requirements | ArtifactKind::Design
        | ArtifactKind::Task => seq![
            "id"@,
            "title"@,
            "type"@,
            "status"@,
            "created"@,
            "updated"@,
            "owner"@,
            "parent"@,
            "depends_on"@,
            "requires"@,
            "blockers"@,
            "related"@,
        ],
        ArtifactKind::UserStory => seq![
            "id"@,
            "title"@,
            "type"@,
            "status"@,
            "created"@,
            "updated"@,
            "owner"@,
            "parent"@,
            "epic"@,
            "feature"@,
            "depends_on"@,
            "requires"@,
            "blockers"@,
            "related"@,
        ],
        ArtifactKind::Gherkin => seq![],
        ArtifactKind::Adr => seq![
            "id"@,
            "title"@,
            "type"@,
            "status"@,
            "created"@,
            "updated"@,
            "owner"@,
            "supersedes"@,
            "superseded_by"@,
            "related"@,
        ],
    }
}

/// The headings each Markdown kind requires, normalized.
pub open spec fn required_headings(kind: ArtifactKind) -> Seq<Seq<char>> {
    match kind {
        ArtifactKind::Prd => seq![
            "product requirements document"@,
            "vision and problem"@,
            "target personas and journeys"@,
            "success metrics"@,
            "functional scope and epics"@,
            "non-functional requirements"@,
            "assumptions and out of scope"@,
            "open questions"@,
            "decision log"@,
            "review checklist"@,
        ],
        ArtifactKind::Epic => seq![
            "epic brief"@,
            "outcome statement"@,
            "capability boundaries"@,
            "candidate vertical slices"@,
            "success criteria"@,
            "dependencies"@,
            "open questions"@,
            "readiness checklist"@,
        ],
        ArtifactKind::UserStory => seq![
            "user story"@,
            "story card"@,
            "context and value"@,
            "business rules"@,
            "examples"@,
            "acceptance criteria"@,
            "scope boundaries"@,
            "dependencies"@,
            "open questions"@,
            "invest check"@,
        ],
        ArtifactKind::Requirements => seq![
            "requirements"@,
            "purpose and actors"@,
            "preconditions"@,
            "inputs and outputs"@,
            "functional requirements"@,
            "postconditions and invariants"@,
            "edge and failure behavior"@,
            "quality requirements"@,
            "traceability"@,
        ],
        ArtifactKind::Design => seq![
            "design"@,
            "context and constraints"@,
            "proposed design"@,
            "components and responsibilities"@,
            "interfaces and contracts"@,
            "data and state flow"@,
            "security, performance, and operations"@,
            "alternatives considered"@,
            "risks and open decisions"@,
            "verification approach"@,
        ],
        ArtifactKind::Adr => seq![
            "context"@,
            "decision"@,
            "alternatives considered"@,
            "consequences"@,
            "follow-up actions"@,
        ],
        ArtifactKind::Task => seq![
            "tasks"@,
            "implementation approach"@,
            "ordered tasks"@,
            "test and verification plan"@,
            "rollout and recovery"@,
            "definition of done"@,
        ],
        ArtifactKind::Gherkin => seq![],
    }
}

/// The heading of the section that must hold checklist items.
pub open spec fn checklist_heading(kind: ArtifactKind) -> Option<Seq<char>> {
    match kind {
        ArtifactKind::Prd => Some("review checklist"@),
        ArtifactKind::Epic => Some("readiness checklist"@),
        ArtifactKind::UserStory => Some("invest check"@),
        ArtifactKind::Task => Some("definition of done"@),
        _ => None,
    }
}

/// The reference fields checked for syntax.
pub open spec fn reference_fields() -> Seq<Seq<char>> {
    seq![
        "parent"@,
        "epic"@,
        "feature"@,
        "depends_on"@,
        "requires"@,
        "related"@,
        "supersedes"@,
        "superseded_by"@,
    ]
}

/// The identifier prefix that each parent-like field of a kind must use.
pub open spec fn expected_reference_prefixes(kind: ArtifactKind) -> Seq<(Seq<char>, Seq<char>)> {
    match kind {
        ArtifactKind::Epic => seq![("parent"@, "PRD"@)],
        ArtifactKind::UserStory => seq![("parent"@, "PRD"@), ("epic"@, "EPIC"@)],
        ArtifactKind::Requirements | ArtifactKind::Design | ArtifactKind::Task => seq![
            ("parent"@, "US"@),
        ],
        _ => seq![],
    }
}

/// Fields whose value must be a sequence.
pub open spec fn sequence_field(f: Seq<char>) -> bool {
    f == "depends_on"@ || f == "requires"@ || f == "blockers"@ || f == "related"@
}

/// Fields whose value may be null or a scalar.
pub open spec fn nullable_field(f: Seq<char>) -> bool {
    f == "parent"@ || f == "supersedes"@ || f == "superseded_by"@
}

/// The value has the shape its field requires.
pub open spec fn shape_matches(f: Seq<char>, v: MValue) -> bool {
    if sequence_field(f) {
        v is Sequence
    } else if nullable_field(f) {
        v is Null || v is Scalar
    } else {
        v is Scalar
    }
}

/// The shape a field requires, in words.
pub open spec fn expected_shape(f: Seq<char>) -> Seq<char> {
    if sequence_field(f) {
        "a YAML sequence"@
    } else {
        "a YAML scalar"@
    }
}

// ---------------------------------------------------------------------------
// Frontmatter findings
// ---------------------------------------------------------------------------
/// A finding for a missing required field.
pub open spec fn missing_field(
    kind: ArtifactKind,
    meta: Seq<Entry>,
    path: Seq<char>,
    f: Seq<char>,
) -> Seq<DiagView> {
    if meta_get(meta, f) is None {
        seq![
            finding(
                path,
                "METADATA_REQUIRED"@,
                "required metadata field `"@ + f + "` is missing"@,
                "add `"@ + f + "` to the "@ + kind.debug_text() + " frontmatter"@,
                None,
            ),
        ]
    } else {
        seq![]
    }
}

/// A finding for a required field of the wrong shape.
pub open spec fn wrong_shape(meta: Seq<Entry>, path: Seq<char>, f: Seq<char>) -> Seq<DiagView> {
    match meta_get(meta, f) {
        Some(v) => if !shape_matches(f, v) {
            seq![
                finding(
                    path,
                    "METADATA_SHAPE"@,
                    "metadata `"@ + f + "` must be "@ + expected_shape(f),
                    "change `"@ + f + "` to "@ + expected_shape(f) + " in frontmatter"@,
                    None,
                ),
            ]
        } else {
            seq![]
        },
        None => seq![],
    }
}

/// The finding for a wrong `type` value.
pub open spec fn type_findings(kind: ArtifactKind, meta: Seq<Entry>, path: Seq<char>) -> Seq<
    DiagView,
> {
    match kind.expected_type_text() {
        Some(e) => if scalar_of(meta_get(meta, "type"@)) != Some(e) {
            seq![
                finding(
                    path,
                    "TYPE_VALUE"@,
                    "metadata `type` must be `"@ + e + "`"@,
                    "set `type: "@ + e + "`"@,
                    None,
                ),
            ]
        } else {
            seq![]
        },
        None => seq![],
    }
}

/// The finding for a missing or unsupported `status`.
pub open spec fn status_findings(meta: Seq<Entry>, path: Seq<char>) -> Seq<DiagView> {
    match scalar_of(meta_get(meta, "status"@)) {
        None => seq![
            finding(
                path,
                "STATUS_VALUE"@,
                "metadata `status` must be a lifecycle value"@,
                "set status to one of draft, in-review, approved, implemented, archived, or released"@,
                None,
            ),
        ],
        Some(a) => if !allowed_statuses().contains(a) {
            seq![
                finding(
                    path,
                    "STATUS_VALUE"@,
                    "metadata `status` has unsupported value `"@ + a + "`"@,
                    "use an allowed lifecycle status"@,
                    None,
                ),
            ]
        } else {
            seq![]
        },
    }
}

/// The finding for an `id` that the kind does not accept.
pub open spec fn id_findings(kind: ArtifactKind, meta: Seq<Entry>, path: Seq<char>) -> Seq<
    DiagView,
> {
    match kind.prefix_text() {
        None => seq![],
        Some(p) => {
            let f = finding(
                path,
                "IDENTITY_VALUE"@,
                "metadata `id` must use the "@ + p + "-NNN format"@,
                "set `id` to a "@ + p + "-NNN identifier"@,
                None,
            );
            match scalar_of(meta_get(meta, "id"@)) {
                None => seq![f],
                Some(a) => if id_for(kind, a) is None {
                    seq![f]
                } else {
                    seq![]
                },
            }
        },
    }
}

/// The finding for one malformed reference of a field.
pub open spec fn syntax_one(path: Seq<char>, field: Seq<char>, r: Seq<char>) -> Seq<DiagView> {
    if is_unresolved(r) || r.len() == 0 || field == "feature"@ || valid_reference(r) {
        seq![]
    } else {
        seq![
            finding(
                path,
                "REFERENCE_SYNTAX"@,
                "metadata `"@ + field + "` contains invalid local reference `"@ + r + "`"@,
                "use a PREFIX-NNN local artifact reference"@,
                None,
            ),
        ]
    }
}

/// The findings for the malformed references of one field.
pub open spec fn syntax_field(meta: Seq<Entry>, path: Seq<char>, field: Seq<char>) -> Seq<
    DiagView,
> {
    match meta_get(meta, field) {
        Some(v) => value_strings(v).flat_map(|r: Seq<char>| syntax_one(path, field, r)),
        None => seq![],
    }
}

/// The finding for a PRD whose parent is not null.
pub open spec fn prd_parent_findings(kind: ArtifactKind, meta: Seq<Entry>, path: Seq<char>) -> Seq<
    DiagView,
> {
    if kind == ArtifactKind::Prd && meta_get(meta, "parent"@) != Some(MValue::Null) {
        seq![
            finding(
                path,
                "REFERENCE_PARENT"@,
                "a PRD `parent` field must be null"@,
                "set the PRD parent field to null"@,
                None,
            ),
        ]
    } else {
        seq![]
    }
}

/// The finding for a parent-like field with the wrong identifier prefix.
pub open spec fn prefix_one(meta: Seq<Entry>, path: Seq<char>, fp: (Seq<char>, Seq<char>)) -> Seq<
    DiagView,
> {
    match scalar_of(meta_get(meta, fp.0)) {
        Some(v) => if !is_numbered(v, fp.1) {
            seq![
                finding(
                    path,
                    "REFERENCE_PARENT"@,
                    "metadata `"@ + fp.0 + "` must contain a "@ + fp.1 + "-NNN identifier"@,
                    "set `"@ + fp.0 + "` to a "@ + fp.1 + "-NNN identifier"@,
                    None,
                ),
            ]
        } else {
            seq![]
        },
        None => seq![],
    }
}

/// All reference findings.
pub open spec fn reference_findings(kind: ArtifactKind, meta: Seq<Entry>, path: Seq<char>) -> Seq<
    DiagView,
> {
    reference_fields().flat_map(|f: Seq<char>| syntax_field(meta, path, f)) + prd_parent_findings(
        kind,
        meta,
        path,
    ) + expected_reference_prefixes(kind).flat_map(
        |fp: (Seq<char>, Seq<char>)| prefix_one(meta, path, fp),
    )
}

/// All frontmatter findings.
pub open spec fn frontmatter_findings(s: SnapshotView) -> Seq<DiagView> {
    required_fields(s.kind).flat_map(|f: Seq<char>| missing_field(s.kind, s.metadata, s.path, f))
        + required_fields(s.kind).flat_map(|f: Seq<char>| wrong_shape(s.metadata, s.path, f))
        + type_findings(s.kind, s.metadata, s.path) + status_findings(s.metadata, s.path)
        + id_findings(s.kind, s.metadata, s.path) + reference_findings(
        s.kind,
        s.metadata,
        s.path,
    )
}

// ---------------------------------------------------------------------------
// Document findings
// ---------------------------------------------------------------------------
/// Number of leading characters that are digits, dots or spaces.
pub open spec fn number_prefix_len(s: Seq<char>) -> nat
    decreases s.len(),
{
    if s.len() > 0 && (is_digit(s[0]) || s[0] == '.' || s[0] == ' ') {
        1 + number_prefix_len(s.drop_first())
    } else {
        0
    }
}

/// A heading text trimmed, without its leading numbering, in lower case.
pub open spec fn normalize_heading(v: Seq<char>) -> Seq<char> {
    let t = trim(v);
    lower(t.skip(number_prefix_len(t) as int))
}

/// The first heading whose normalized text is `required`.
pub open spec fn find_heading(hs: Seq<HeadingView>, required: Seq<char>) -> Option<HeadingView>
    decreases hs.len(),
{
    if hs.len() == 0 {
        None
    } else if normalize_heading(hs[0].text) == required {
        Some(hs[0])
    } else {
        find_heading(hs.drop_first(), required)
    }
}

/// A checklist item lies in the section of heading `h`: after it and before
/// the next heading of the same or a higher level.
pub open spec fn section_has_item(doc: DocView, h: HeadingView) -> bool {
    exists|k: int|
        0 <= k < doc.items.len() && (#[trigger] doc.items[k]).line > h.line && forall|j: int|
            0 <= j < doc.headings.len() && (#[trigger] doc.headings[j]).line > h.line
                && doc.headings[j].level <= h.level ==> doc.items[k].line < doc.headings[j].line
}

/// The findings for one required section.
pub open spec fn section_one(kind: ArtifactKind, doc: DocView, path: Seq<char>, req: Seq<char>) -> Seq<
    DiagView,
> {
    match find_heading(doc.headings, req) {
        Some(h) => if checklist_heading(kind) == Some(req) && !section_has_item(doc, h) {
            seq![
                finding(
                    path,
                    "CHECKLIST_ITEM"@,
                    "checklist section `"@ + req + "` has no checklist items"@,
                    "add at least one checklist item to the required section"@,
                    None,
                ),
            ]
        } else {
            seq![]
        },
        None => seq![
            finding(
                path,
                "SECTION_REQUIRED"@,
                "required section `"@ + req + "` is missing"@,
                "add a Markdown heading named `"@ + req + "`"@,
                None,
            ),
        ],
    }
}

/// The finding for a missing checklist section.
pub open spec fn checklist_findings(kind: ArtifactKind, doc: DocView, path: Seq<char>) -> Seq<
    DiagView,
> {
    match checklist_heading(kind) {
        Some(c) => if find_heading(doc.headings, c) is None {
            seq![
                finding(
                    path,
                    "CHECKLIST_SECTION"@,
                    "required checklist section `"@ + c + "` is missing"@,
                    "add a `"@ + c + "` heading and checklist items"@,
                    None,
                ),
            ]
        } else {
            seq![]
        },
        None => seq![],
    }
}

/// All document findings of a Markdown artifact.
pub open spec fn document_findings(kind: ArtifactKind, doc: DocView, path: Seq<char>) -> Seq<
    DiagView,
> {
    required_headings(kind).flat_map(|r: Seq<char>| section_one(kind, doc, path, r))
        + checklist_findings(kind, doc, path)
}

// ---------------------------------------------------------------------------
// Gherkin findings
// ---------------------------------------------------------------------------
/// The finding for a missing step kind.
pub open spec fn step_findings(present: bool, name: Seq<char>, path: Seq<char>) -> Seq<DiagView> {
    if present {
        seq![]
    } else {
        seq![
            finding(
                path,
                "STEP_REQUIRED"@,
                "the feature file has no `"@ + name + "` step"@,
                "add a `"@ + name + "` step to a scenario"@,
                None,
            ),
        ]
    }
}

/// The finding for a missing or malformed `# parent:` header.
pub open spec fn header_parent_findings(f: FeatureView, path: Seq<char>) -> Seq<DiagView> {
    let ok = match f.parent {
        Some(p) => is_numbered(p, "US"@),
        None => false,
    };
    if ok {
        seq![]
    } else {
        seq![
            finding(
                path,
                "HEADER_PARENT"@,
                "the `# parent:` header must contain a US-NNN identifier"@,
                "add `# parent: US-NNN` with the owning story identifier"@,
                None,
            ),
        ]
    }
}

/// The finding for a missing or unsupported `# status:` header.
pub open spec fn header_status_findings(f: FeatureView, path: Seq<char>) -> Seq<DiagView> {
    let ok = match f.status {
        Some(s) => allowed_statuses().contains(s),
        None => false,
    };
    if ok {
        seq![]
    } else {
        seq![
            finding(
                path,
                "HEADER_STATUS"@,
                "the `# status:` header must contain an allowed lifecycle value"@,
                "set `# status:` to draft, in-review, approved, implemented, archived, or released"@,
                None,
            ),
        ]
    }
}

/// The findings for a feature without a name or without scenarios.
pub open spec fn feature_shape_findings(f: FeatureView, path: Seq<char>) -> Seq<DiagView> {
    (if f.name is None {
        seq![
            finding(
                path,
                "FEATURE_REQUIRED"@,
                "the feature file must contain a Feature"@,
                "add a Gherkin Feature declaration"@,
                None,
            ),
        ]
    } else {
        seq![]
    }) + (if f.scenario_count == 0 {
        seq![
            finding(
                path,
                "SCENARIO_REQUIRED"@,
                "the feature file must contain at least one Scenario"@,
                "add a Gherkin Scenario with Given, When, and Then steps"@,
                None,
            ),
        ]
    } else {
        seq![]
    })
}

/// All findings of a Gherkin artifact.
pub open spec fn gherkin_findings(doc: DocView, path: Seq<char>, parser: Seq<DiagView>) -> Seq<
    DiagView,
> {
    match doc.feature {
        None => if !(exists|i: int|
            0 <= i < parser.len() && ends_with(#[trigger] parser[i].rule, "GHERKIN_PARSE"@)) {
            seq![
                finding(
                    path,
                    "GHERKIN_PARSE"@,
                    "the feature file could not be parsed"@,
                    "provide valid Gherkin with a Feature and Scenario"@,
                    None,
                ),
            ]
        } else {
            seq![]
        },
        Some(f) => header_parent_findings(f, path) + header_status_findings(f, path)
            + feature_shape_findings(f, path) + step_findings(f.has_given, "Given"@, path)
            + step_findings(f.has_when, "When"@, path) + step_findings(f.has_then, "Then"@, path),
    }
}

// ---------------------------------------------------------------------------
// Placeholder findings
// ---------------------------------------------------------------------------
/// The findings for one metadata text.
pub open spec fn marker_text(path: Seq<char>, name: Seq<char>, t: Seq<char>) -> Seq<DiagView> {
    (if is_unresolved(t) {
        seq![
            finding(
                path,
                "PLACEHOLDER_UNRESOLVED"@,
                "metadata `"@ + name + "` contains unresolved value `"@ + t + "`"@,
                "replace the unresolved value with concrete artifact content"@,
                None,
            ),
        ]
    } else {
        seq![]
    }) + (if is_template_marker(t) {
        seq![
            finding(
                path,
                "PLACEHOLDER_TEMPLATE"@,
                "metadata `"@ + name + "` contains an unreplaced template marker"@,
                "replace the template marker with a concrete value"@,
                None,
            ),
        ]
    } else {
        seq![]
    })
}

/// The findings for one metadata entry.
pub open spec fn marker_entry(path: Seq<char>, e: Entry) -> Seq<DiagView> {
    value_strings(e.1).flat_map(|t: Seq<char>| marker_text(path, e.0, t))
}

/// The findings for one source line.
pub open spec fn marker_line(path: Seq<char>, l: LineView) -> Seq<DiagView> {
    (if is_unresolved(l.text) {
        seq![
            finding(
                path,
                "PLACEHOLDER_UNRESOLVED"@,
                "document content contains an unresolved value marker"@,
                "replace the unresolved marker with concrete artifact content"@,
                Some(at_line(l.line)),
            ),
        ]
    } else {
        seq![]
    }) + (if is_template_marker(l.text) {
        seq![
            finding(
                path,
                "PLACEHOLDER_TEMPLATE"@,
                "document content contains an unreplaced template marker"@,
                "replace the template marker with concrete artifact content"@,
                Some(at_line(l.line)),
            ),
        ]
    } else {
        seq![]
    })
}

/// All placeholder findings.
pub open spec fn marker_findings(s: SnapshotView) -> Seq<DiagView> {
    s.metadata.flat_map(|e: Entry| marker_entry(s.path, e)) + s.document.lines.flat_map(
        |l: LineView| marker_line(s.path, l),
    )
}

/// Every rule finding of a snapshot, in the order the rules produce them.
pub open spec fn rule_findings(s: SnapshotView) -> Seq<DiagView> {
    (if s.kind == ArtifactKind::Gherkin {
        gherkin_findings(s.document, s.path, s.parser)
    } else {
        frontmatter_findings(s) + document_findings(s.kind, s.document, s.path)
    }) + marker_findings(s)
}

/// The result of validating one snapshot: parser and rule findings in the
/// stable order.
pub open spec fn artifact_findings(s: SnapshotView) -> Seq<DiagView> {
    sorted_by::<Diagnostic, StableOrder>(s.parser + rule_findings(s))
}


// ---------------------------------------------------------------------------
// Executable vocabulary
// ---------------------------------------------------------------------------
/// `value_strings` on a metadata value.
pub fn value_texts(v: &MetadataValue) -> (res: Vec<&str>)
    ensures
        crate::text::str_views(res@) == value_strings(v@),
{
    match v {
        MetadataValue::Scalar(s) => {
            let res = vec![s.as_str()];
            proof {
                assert(crate::text::str_views(res@) =~= seq![s@]);
            }
            res
        },
        MetadataValue::Sequence(vs) => {
            let mut res: Vec<&str> = Vec::new();
            let mut i: usize = 0;
            while i < vs.len()
                invariant
                    i <= vs@.len(),
                    crate::text::str_views(res@) == view_seq(vs@).take(i as int),
                decreases vs@.len() - i,
            {
                let t = vs[i].as_str();
                proof {
                    assert(crate::text::str_views(res@.push(t)) =~= crate::text::str_views(
                        res@,
                    ).push(t@));
                    assert(view_seq(vs@).take(i + 1) =~= view_seq(vs@).take(i as int).push(
                        vs@[i as int]@,
                    ));
                }
                res.push(t);
                i = i + 1;
            }
            proof {
                assert(view_seq(vs@).take(i as int) =~= view_seq(vs@));
            }
            res
        },
        _ => {
            let res: Vec<&str> = Vec::new();
            proof {
                assert(crate::text::str_views(res@) =~= Seq::<Seq<char>>::empty());
            }
            res
        },
    }
}

/// `is_unresolved` on a string.
pub fn unresolved(v: &str) -> (res: bool)
    ensures
        res == is_unresolved(v@),
{
    let chars = chars_of(v);
    let ws = chars_words(chars.as_slice());
    let tbd = chars_of("TBD");
    let mut i: usize = 0;
    while i < ws.len()
        invariant
            i <= ws@.len(),
            ws@.map_values(|p: Vec<char>| p@) == words(v@),
            tbd@ == "TBD"@,
            forall|k: int| 0 <= k < i ==> !eq_ignore_case(#[trigger] words(v@)[k], "TBD"@),
        decreases ws@.len() - i,
    {
        proof {
            assert(ws@[i as int]@ == words(v@)[i as int]);
        }
        if chars_eq_ignore_case(ws[i].as_slice(), tbd.as_slice()) {
            return true;
        }
        i = i + 1;
    }
    false
}

fn placeholder_word_of(w: &[char]) -> (res: bool)
    ensures
        res == placeholder_word(w@),
{
    let nnn = chars_of("NNN");
    let dash_nnn = chars_of("-NNN");
    let open = chars_of("<");
    let close = chars_of(">");
    chars_eq(w, nnn.as_slice()) || chars_end_with(w, dash_nnn.as_slice()) || (chars_start_with(
        w,
        open.as_slice(),
    ) && chars_end_with(w, close.as_slice()))
}

/// `is_template_marker` on a string.
pub fn template_marker(v: &str) -> (res: bool)
    ensures
        res == is_template_marker(v@),
{
    let chars = chars_of(v);
    let date = chars_of("YYYY-MM-DD");
    let open = chars_of("{{");
    let close = chars_of("}}");
    if chars_contain(chars.as_slice(), date.as_slice()) || chars_contain(
        chars.as_slice(),
        open.as_slice(),
    ) || chars_contain(chars.as_slice(), close.as_slice()) {
        return true;
    }
    let ws = chars_words(chars.as_slice());
    let mut i: usize = 0;
    while i < ws.len()
        invariant
            i <= ws@.len(),
            ws@.map_values(|p: Vec<char>| p@) == words(v@),
            forall|k: int| 0 <= k < i ==> !placeholder_word(#[trigger] words(v@)[k]),
        decreases ws@.len() - i,
    {
        proof {
            assert(ws@[i as int]@ == words(v@)[i as int]);
        }
        if placeholder_word_of(ws[i].as_slice()) {
            return true;
        }
        i = i + 1;
    }
    false
}

fn reference_prefix_texts() -> (res: Vec<&'static str>)
    ensures
        crate::text::str_views(res@) == reference_prefixes(),
{
    let res = vec!["PRD", "EPIC", "US", "REQ", "DES", "ADR", "TASK", "CHART", "DB", "TABLE", "OBS", "REL"];
    proof {
        assert(crate::text::str_views(res@) =~= reference_prefixes());
    }
    res
}

/// `valid_reference` on a string.
pub fn valid_reference_text(v: &str) -> (res: bool)
    ensures
        res == valid_reference(v@),
{
    let prefixes = reference_prefix_texts();
    let mut i: usize = 0;
    while i < prefixes.len()
        invariant
            i <= prefixes@.len(),
            crate::text::str_views(prefixes@) == reference_prefixes(),
            forall|k: int| 0 <= k < i ==> !is_numbered(v@, #[trigger] reference_prefixes()[k]),
        decreases prefixes@.len() - i,
    {
        proof {
            assert(prefixes@[i as int]@ == reference_prefixes()[i as int]);
        }
        if text_numbered(v, prefixes[i]) {
            return true;
        }
        i = i + 1;
    }
    false
}

/// `is_concrete_reference` on a string.
pub fn concrete_reference(v: &str) -> (res: bool)
    ensures
        res == is_concrete_reference(v@),
{
    let chars = chars_of(v);
    chars.len() > 0 && !unresolved(v) && valid_reference_text(v)
}

fn allowed_status(v: &str) -> (res: bool)
    ensures
        res == allowed_statuses().contains(v@),
{
    let all = vec!["draft", "in-review", "approved", "implemented", "archived", "released", "superseded"];
    proof {
        assert(crate::text::str_views(all@) =~= allowed_statuses());
    }
    let mut i: usize = 0;
    while i < all.len()
        invariant
            i <= all@.len(),
            crate::text::str_views(all@) == allowed_statuses(),
            forall|k: int| 0 <= k < i ==> allowed_statuses()[k] != v@,
        decreases all@.len() - i,
    {
        proof {
            assert(all@[i as int]@ == allowed_statuses()[i as int]);
        }
        if text_eq(all[i], v) {
            return true;
        }
        i = i + 1;
    }
    false
}

/// The rule identifier text for a rule on `path`.
fn rule_text(path: &ArtifactPath, rule: &str) -> (res: String)
    ensures
        res@ == rule_prefix(path@) + rule@,
{
    let token = match ArtifactKind::from_path(path.as_str()) {
        Some(k) => k.token(),
        None => "unknown",
    };
    let t = chars_of(token);
    let up = chars_upper(t.as_slice());
    let up_text = string_of(up.as_slice());
    cat(cat(cat(owned("ARTIFACT."), up_text.as_str()), "."), rule)
}

/// Appends one structural finding.
fn push_finding(
    out: &mut Vec<Diagnostic>,
    path: &ArtifactPath,
    rule: &str,
    message: String,
    remediation: String,
    location: Option<Location>,
)
    ensures
        view_seq(final(out)@) == view_seq(old(out)@).push(
            finding(path@, rule@, message@, remediation@, location),
        ),
{
    let d = Diagnostic::from_parts(
        path.duplicate(),
        location,
        rule_text(path, rule),
        Severity::Error,
        message,
        remediation,
    );
    proof {
        crate::copy::lemma_view_seq_push(out@, d);
    }
    out.push(d);
}

fn scalar_text(v: Option<&MetadataValue>) -> (res: Option<&str>)
    ensures
        match res {
            Some(t) => v is Some && scalar_of(Some(v->0@)) == Some(t@),
            None => v is None || scalar_of(Some(v->0@)) is None,
        },
{
    match v {
        Some(MetadataValue::Scalar(s)) => Some(s.as_str()),
        _ => None,
    }
}


// ---------------------------------------------------------------------------
// Executable tables
// ---------------------------------------------------------------------------
fn required_fields_of(kind: ArtifactKind) -> (res: Vec<&'static str>)
    ensures
        crate::text::str_views(res@) == required_fields(kind),
{
    let res = match kind {
        ArtifactKind::Prd => vec![
            "id",
            "title",
            "type",
            "scope",
            "status",
            "created",
            "updated",
            "owner",
            "parent",
            "supersedes",
            "related",
        ],
        ArtifactKind::Epic | ArtifactKind::Requirements | ArtifactKind::Design
        | ArtifactKind::Task => vec![
            "id",
            "title",
            "type",
            "status",
            "created",
            "updated",
            "owner",
            "parent",
            "depends_on",
            "requires",
            "blockers",
            "related",
        ],
        ArtifactKind::UserStory => vec![
            "id",
            "title",
            "type",
            "status",
            "created",
            "updated",
            "owner",
            "parent",
            "epic",
            "feature",
            "depends_on",
            "requires",
            "blockers",
            "related",
        ],
        ArtifactKind::Gherkin => vec![],
        ArtifactKind::Adr => vec![
            "id",
            "title",
            "type",
            "status",
            "created",
            "updated",
            "owner",
            "supersedes",
            "superseded_by",
            "related",
        ],
    };
    proof {
        assert(crate::text::str_views(res@) =~= required_fields(kind));
    }
    res
}

fn required_headings_of(kind: ArtifactKind) -> (res: Vec<&'static str>)
    ensures
        crate::text::str_views(res@) == required_headings(kind),
{
    let res = match kind {
        ArtifactKind::Prd => vec![
            "product requirements document",
            "vision and problem",
            "target personas and journeys",
            "success metrics",
            "functional scope and epics",
            "non-functional requirements",
            "assumptions and out of scope",
            "open questions",
            "decision log",
            "review checklist",
        ],
        ArtifactKind::Epic => vec![
            "epic brief",
            "outcome statement",
            "capability boundaries",
            "candidate vertical slices",
            "success criteria",
            "dependencies",
            "open questions",
            "readiness checklist",
        ],
        ArtifactKind::UserStory => vec![
            "user story",
            "story card",
            "context and value",
            "business rules",
            "examples",
            "acceptance criteria",
            "scope boundaries",
            "dependencies",
            "open questions",
            "invest check",
        ],
        ArtifactKind::Requirements => vec![
            "requirements",
            "purpose and actors",
            "preconditions",
            "inputs and outputs",
            "functional requirements",
            "postconditions and invariants",
            "edge and failure behavior",
            "quality requirements",
            "traceability",
        ],
        ArtifactKind::Design => vec![
            "design",
            "context and constraints",
            "proposed design",
            "components and responsibilities",
            "interfaces and contracts",
            "data and state flow",
            "security, performance, and operations",
            "alternatives considered",
            "risks and open decisions",
            "verification approach",
        ],
        ArtifactKind::Adr => vec![
            "context",
            "decision",
            "alternatives considered",
            "consequences",
            "follow-up actions",
        ],
        ArtifactKind::Task => vec![
            "tasks",
            "implementation approach",
            "ordered tasks",
            "test and verification plan",
            "rollout and recovery",
            "definition of done",
        ],
        ArtifactKind::Gherkin => vec![],
    };
    proof {
        assert(crate::text::str_views(res@) =~= required_headings(kind));
    }
    res
}

fn checklist_heading_of(kind: ArtifactKind) -> (res: Option<&'static str>)
    ensures
        res is Some <==> checklist_heading(kind) is Some,
        res is Some ==> res->0@ == checklist_heading(kind)->0,
{
    match kind {
        ArtifactKind::Prd => Some("review checklist"),
        ArtifactKind::Epic => Some("readiness checklist"),
        ArtifactKind::UserStory => Some("invest check"),
        ArtifactKind::Task => Some("definition of done"),
        _ => None,
    }
}

fn reference_fields_of() -> (res: Vec<&'static str>)
    ensures
        crate::text::str_views(res@) == reference_fields(),
{
    let res = vec![
        "parent",
        "epic",
        "feature",
        "depends_on",
        "requires",
        "related",
        "supersedes",
        "superseded_by",
    ];
    proof {
        assert(crate::text::str_views(res@) =~= reference_fields());
    }
    res
}

/// The views of field and prefix pairs.
pub open spec fn pair_views(v: Seq<(&str, &str)>) -> Seq<(Seq<char>, Seq<char>)> {
    v.map_values(|p: (&str, &str)| (p.0@, p.1@))
}

fn expected_reference_prefixes_of(kind: ArtifactKind) -> (res: Vec<(&'static str, &'static str)>)
    ensures
        pair_views(res@) == expected_reference_prefixes(kind),
{
    let res = match kind {
        ArtifactKind::Epic => vec![("parent", "PRD")],
        ArtifactKind::UserStory => vec![("parent", "PRD"), ("epic", "EPIC")],
        ArtifactKind::Requirements | ArtifactKind::Design | ArtifactKind::Task => vec![
            ("parent", "US"),
        ],
        _ => vec![],
    };
    proof {
        assert(pair_views(res@) =~= expected_reference_prefixes(kind));
    }
    res
}

fn is_sequence_field(f: &str) -> (res: bool)
    ensures
        res == sequence_field(f@),
{
    text_eq(f, "depends_on") || text_eq(f, "requires") || text_eq(f, "blockers") || text_eq(
        f,
        "related",
    )
}

fn is_nullable_field(f: &str) -> (res: bool)
    ensures
        res == nullable_field(f@),
{
    text_eq(f, "parent") || text_eq(f, "supersedes") || text_eq(f, "superseded_by")
}

fn shape_ok(f: &str, v: &MetadataValue) -> (res: bool)
    ensures
        res == shape_matches(f@, v@),
{
    if is_sequence_field(f) {
        matches!(v, MetadataValue::Sequence(_))
    } else if is_nullable_field(f) {
        matches!(v, MetadataValue::Null | MetadataValue::Scalar(_))
    } else {
        matches!(v, MetadataValue::Scalar(_))
    }
}

fn expected_shape_text(f: &str) -> (res: &'static str)
    ensures
        res@ == expected_shape(f@),
{
    if is_sequence_field(f) {
        "a YAML sequence"
    } else {
        "a YAML scalar"
    }
}


// ---------------------------------------------------------------------------
// Frontmatter rules
// ---------------------------------------------------------------------------
fn add_missing_fields(
    kind: ArtifactKind,
    meta: &Metadata,
    path: &ArtifactPath,
    out: &mut Vec<Diagnostic>,
)
    ensures
        view_seq(final(out)@) == view_seq(old(out)@) + required_fields(kind).flat_map(
            |f: Seq<char>| missing_field(kind, meta@, path@, f),
        ),
{
    let ghost base = view_seq(out@);
    let fields = required_fields_of(kind);
    let ghost all = required_fields(kind);
    let mut i: usize = 0;
    while i < fields.len()
        invariant
            i <= fields@.len(),
            crate::text::str_views(fields@) == all,
            all == required_fields(kind),
            view_seq(out@) == base + all.take(i as int).flat_map(
                |f: Seq<char>| missing_field(kind, meta@, path@, f),
            ),
        decreases fields@.len() - i,
    {
        let f = fields[i];
        proof {
            assert(f@ == all[i as int]);
            all.lemma_flat_map_take_append(|f: Seq<char>| missing_field(kind, meta@, path@, f), i as int);
        }
        if meta.get(f).is_none() {
            let message = cat(cat(owned("required metadata field `"), f), "` is missing");
            let remediation = cat(
                cat(cat(cat(owned("add `"), f), "` to the "), kind.debug_name()),
                " frontmatter",
            );
            push_finding(out, path, "METADATA_REQUIRED", message, remediation, None);
        }
        i = i + 1;
    }
    proof {
        assert(all.take(i as int) =~= all);
    }
}

fn add_wrong_shapes(
    kind: ArtifactKind,
    meta: &Metadata,
    path: &ArtifactPath,
    out: &mut Vec<Diagnostic>,
)
    ensures
        view_seq(final(out)@) == view_seq(old(out)@) + required_fields(kind).flat_map(
            |f: Seq<char>| wrong_shape(meta@, path@, f),
        ),
{
    let ghost base = view_seq(out@);
    let fields = required_fields_of(kind);
    let ghost all = required_fields(kind);
    let mut i: usize = 0;
    while i < fields.len()
        invariant
            i <= fields@.len(),
            crate::text::str_views(fields@) == all,
            view_seq(out@) == base + all.take(i as int).flat_map(
                |f: Seq<char>| wrong_shape(meta@, path@, f),
            ),
        decreases fields@.len() - i,
    {
        let f = fields[i];
        proof {
            assert(f@ == all[i as int]);
            all.lemma_flat_map_take_append(|f: Seq<char>| wrong_shape(meta@, path@, f), i as int);
        }
        match meta.get(f) {
            Some(value) => {
                if !shape_ok(f, value) {
                    let expected = expected_shape_text(f);
                    let message = cat(cat(cat(owned("metadata `"), f), "` must be "), expected);
                    let remediation = cat(
                        cat(cat(cat(owned("change `"), f), "` to "), expected),
                        " in frontmatter",
                    );
                    push_finding(out, path, "METADATA_SHAPE", message, remediation, None);
                }
            },
            None => {},
        }
        i = i + 1;
    }
    proof {
        assert(all.take(i as int) =~= all);
    }
}

fn add_type(kind: ArtifactKind, meta: &Metadata, path: &ArtifactPath, out: &mut Vec<Diagnostic>)
    ensures
        view_seq(final(out)@) == view_seq(old(out)@) + type_findings(kind, meta@, path@),
{
    match kind.expected_type() {
        Some(expected) => {
            let matches_expected = match scalar_text(meta.get("type")) {
                Some(actual) => text_eq(actual, expected),
                None => false,
            };
            if !matches_expected {
                let message = cat(cat(owned("metadata `type` must be `"), expected), "`");
                let remediation = cat(cat(owned("set `type: "), expected), "`");
                push_finding(out, path, "TYPE_VALUE", message, remediation, None);
            } else {
                assert(view_seq(out@) =~= view_seq(out@) + Seq::<DiagView>::empty());
            }
        },
        None => {
            assert(view_seq(out@) =~= view_seq(out@) + Seq::<DiagView>::empty());
        },
    }
}

fn add_status(meta: &Metadata, path: &ArtifactPath, out: &mut Vec<Diagnostic>)
    ensures
        view_seq(final(out)@) == view_seq(old(out)@) + status_findings(meta@, path@),
{
    match scalar_text(meta.get("status")) {
        None => {
            push_finding(
                out,
                path,
                "STATUS_VALUE",
                owned("metadata `status` must be a lifecycle value"),
                owned(
                    "set status to one of draft, in-review, approved, implemented, archived, or released",
                ),
                None,
            );
        },
        Some(actual) => {
            if !allowed_status(actual) {
                let message = cat(
                    cat(owned("metadata `status` has unsupported value `"), actual),
                    "`",
                );
                push_finding(
                    out,
                    path,
                    "STATUS_VALUE",
                    message,
                    owned("use an allowed lifecycle status"),
                    None,
                );
            } else {
                assert(view_seq(out@) =~= view_seq(out@) + Seq::<DiagView>::empty());
            }
        },
    }
}

fn add_id(kind: ArtifactKind, meta: &Metadata, path: &ArtifactPath, out: &mut Vec<Diagnostic>)
    ensures
        view_seq(final(out)@) == view_seq(old(out)@) + id_findings(kind, meta@, path@),
{
    match kind.id_prefix() {
        None => {
            assert(view_seq(out@) =~= view_seq(out@) + Seq::<DiagView>::empty());
        },
        Some(prefix) => {
            let ok = match scalar_text(meta.get("id")) {
                Some(actual) => crate::artifact::ArtifactId::try_new(kind, actual).is_ok(),
                None => false,
            };
            if !ok {
                let message = cat(cat(owned("metadata `id` must use the "), prefix), "-NNN format");
                let remediation = cat(cat(owned("set `id` to a "), prefix), "-NNN identifier");
                push_finding(out, path, "IDENTITY_VALUE", message, remediation, None);
            } else {
                assert(view_seq(out@) =~= view_seq(out@) + Seq::<DiagView>::empty());
            }
        },
    }
}

fn add_syntax_field(meta: &Metadata, path: &ArtifactPath, field: &str, out: &mut Vec<Diagnostic>)
    ensures
        view_seq(final(out)@) == view_seq(old(out)@) + syntax_field(meta@, path@, field@),
{
    let ghost base = view_seq(out@);
    match meta.get(field) {
        None => {
            assert(view_seq(out@) =~= base + Seq::<DiagView>::empty());
        },
        Some(value) => {
            let refs = value_texts(value);
            let ghost all = value_strings(value@);
            let is_feature = text_eq(field, "feature");
            let mut i: usize = 0;
            while i < refs.len()
                invariant
                    i <= refs@.len(),
                    crate::text::str_views(refs@) == all,
                    is_feature == (field@ == "feature"@),
                    view_seq(out@) == base + all.take(i as int).flat_map(
                        |r: Seq<char>| syntax_one(path@, field@, r),
                    ),
                decreases refs@.len() - i,
            {
                let r = refs[i];
                proof {
                    assert(r@ == all[i as int]);
                    all.lemma_flat_map_take_append(
                        |r: Seq<char>| syntax_one(path@, field@, r),
                        i as int,
                    );
                }
                let empty = chars_of(r).len() == 0;
                if !(unresolved(r) || empty || is_feature || valid_reference_text(r)) {
                    let message = cat(
                        cat(cat(cat(owned("metadata `"), field), "` contains invalid local reference `"), r),
                        "`",
                    );
                    push_finding(
                        out,
                        path,
                        "REFERENCE_SYNTAX",
                        message,
                        owned("use a PREFIX-NNN local artifact reference"),
                        None,
                    );
                } else {
                    assert(view_seq(out@) =~= view_seq(out@) + Seq::<DiagView>::empty());
                }
                i = i + 1;
            }
            proof {
                assert(all.take(i as int) =~= all);
            }
        },
    }
}

fn add_references(
    kind: ArtifactKind,
    meta: &Metadata,
    path: &ArtifactPath,
    out: &mut Vec<Diagnostic>,
)
    ensures
        view_seq(final(out)@) == view_seq(old(out)@) + reference_findings(kind, meta@, path@),
{
    let ghost base = view_seq(out@);
    let fields = reference_fields_of();
    let ghost all = reference_fields();
    let mut i: usize = 0;
    while i < fields.len()
        invariant
            i <= fields@.len(),
            crate::text::str_views(fields@) == all,
            all == reference_fields(),
            view_seq(out@) == base + all.take(i as int).flat_map(
                |f: Seq<char>| syntax_field(meta@, path@, f),
            ),
        decreases fields@.len() - i,
    {
        let f = fields[i];
        proof {
            assert(f@ == all[i as int]);
            all.lemma_flat_map_take_append(|f: Seq<char>| syntax_field(meta@, path@, f), i as int);
        }
        add_syntax_field(meta, path, f, out);
        i = i + 1;
    }
    proof {
        assert(all.take(i as int) =~= all);
    }
    let ghost mid = view_seq(out@);
    let parent_is_null = match meta.get("parent") {
        Some(MetadataValue::Null) => true,
        _ => false,
    };
    if kind == ArtifactKind::Prd && !parent_is_null {
        push_finding(
            out,
            path,
            "REFERENCE_PARENT",
            owned("a PRD `parent` field must be null"),
            owned("set the PRD parent field to null"),
            None,
        );
    } else {
        assert(view_seq(out@) =~= view_seq(out@) + Seq::<DiagView>::empty());
    }
    let ghost mid2 = view_seq(out@);
    let pairs = expected_reference_prefixes_of(kind);
    let ghost ps = expected_reference_prefixes(kind);
    let mut j: usize = 0;
    while j < pairs.len()
        invariant
            j <= pairs@.len(),
            pair_views(pairs@) == ps,
            view_seq(out@) == mid2 + ps.take(j as int).flat_map(
                |fp: (Seq<char>, Seq<char>)| prefix_one(meta@, path@, fp),
            ),
        decreases pairs@.len() - j,
    {
        let (field, prefix) = pairs[j];
        proof {
            assert(field@ == ps[j as int].0 && prefix@ == ps[j as int].1);
            ps.lemma_flat_map_take_append(
                |fp: (Seq<char>, Seq<char>)| prefix_one(meta@, path@, fp),
                j as int,
            );
        }
        match scalar_text(meta.get(field)) {
            Some(value) => {
                if !text_numbered(value, prefix) {
                    let message = cat(
                        cat(cat(cat(owned("metadata `"), field), "` must contain a "), prefix),
                        "-NNN identifier",
                    );
                    let remediation = cat(
                        cat(cat(cat(owned("set `"), field), "` to a "), prefix),
                        "-NNN identifier",
                    );
                    push_finding(out, path, "REFERENCE_PARENT", message, remediation, None);
                } else {
                    assert(view_seq(out@) =~= view_seq(out@) + Seq::<DiagView>::empty());
                }
            },
            None => {
                assert(view_seq(out@) =~= view_seq(out@) + Seq::<DiagView>::empty());
            },
        }
        j = j + 1;
    }
    proof {
        assert(ps.take(j as int) =~= ps);
    }
}

fn add_frontmatter(snapshot: &ArtifactSnapshot, out: &mut Vec<Diagnostic>)
    ensures
        view_seq(final(out)@) == view_seq(old(out)@) + frontmatter_findings(snapshot@),
{
    let kind = snapshot.kind();
    let meta = snapshot.metadata();
    let path = snapshot.path();
    let ghost s = snapshot@;
    let ghost v0 = view_seq(out@);
    add_missing_fields(kind, meta, path, out);
    add_wrong_shapes(kind, meta, path, out);
    add_type(kind, meta, path, out);
    add_status(meta, path, out);
    add_id(kind, meta, path, out);
    add_references(kind, meta, path, out);
    proof {
        assert(view_seq(out@) =~= v0 + frontmatter_findings(s));
    }
}


// ---------------------------------------------------------------------------
// Document rules
// ---------------------------------------------------------------------------
/// `normalize_heading` on a string.
fn normalized_heading(text: &str) -> (res: Vec<char>)
    ensures
        res@ == normalize_heading(text@),
{
    let chars = chars_of(text);
    let t = chars_trim(chars.as_slice());
    let mut n: usize = 0;
    proof {
        assert(t@.skip(0) =~= t@);
    }
    while n < t.len() && (char_is_digit(t[n]) || t[n] == '.' || t[n] == ' ')
        invariant
            n <= t@.len(),
            number_prefix_len(t@) == n + number_prefix_len(t@.skip(n as int)),
        decreases t@.len() - n,
    {
        proof {
            assert(t@.skip(n as int).drop_first() =~= t@.skip(n + 1));
        }
        n = n + 1;
    }
    let rest = crate::text::sub_chars(t.as_slice(), n, t.len());
    chars_lower(rest.as_slice())
}

/// `find_heading` on a document: the index of the first matching heading.
fn find_heading_index(headings: &[crate::document::Heading], required: &str) -> (res: Option<usize>)
    ensures
        match res {
            Some(j) => j < headings@.len() && find_heading(view_seq(headings@), required@) == Some(
                headings@[j as int]@,
            ),
            None => find_heading(view_seq(headings@), required@) is None,
        },
{
    let req = chars_of(required);
    let ghost hs = view_seq(headings@);
    let mut j: usize = 0;
    proof {
        assert(hs.skip(0) =~= hs);
    }
    while j < headings.len()
        invariant
            j <= headings@.len(),
            hs == view_seq(headings@),
            req@ == required@,
            find_heading(hs, required@) == find_heading(hs.skip(j as int), required@),
        decreases headings@.len() - j,
    {
        let norm = normalized_heading(headings[j].text());
        proof {
            assert(hs.skip(j as int)[0] == headings@[j as int]@);
            assert(hs.skip(j as int).drop_first() =~= hs.skip(j + 1));
        }
        if chars_eq(norm.as_slice(), req.as_slice()) {
            return Some(j);
        }
        j = j + 1;
    }
    None
}

/// `section_has_item` on a document.
fn section_has_item_of(doc: &DocumentSnapshot, h: &crate::document::Heading) -> (res: bool)
    ensures
        res == section_has_item(doc@, h@),
{
    let headings = doc.headings();
    let items = doc.checklist_items();
    let ghost d = doc@;
    let ghost hv = h@;
    let mut next: Option<usize> = None;
    let mut j: usize = 0;
    while j < headings.len()
        invariant
            j <= headings@.len(),
            view_seq(headings@) == d.headings,
            hv == h@,
            match next {
                None => forall|k: int|
                    0 <= k < j ==> !((#[trigger] d.headings[k]).line > hv.line && d.headings[k].level
                        <= hv.level),
                Some(n) => (forall|k: int|
                    0 <= k < j && (#[trigger] d.headings[k]).line > hv.line && d.headings[k].level
                        <= hv.level ==> n <= d.headings[k].line) && exists|k: int|
                    0 <= k < j && (#[trigger] d.headings[k]).line > hv.line && d.headings[k].level
                        <= hv.level && d.headings[k].line == n,
            },
        decreases headings@.len() - j,
    {
        let candidate = &headings[j];
        proof {
            assert(candidate@ == d.headings[j as int]);
        }
        if candidate.line() > h.line() && candidate.level() <= h.level() {
            next = match next {
                None => Some(candidate.line()),
                Some(n) => if candidate.line() < n {
                    Some(candidate.line())
                } else {
                    Some(n)
                },
            };
        }
        j = j + 1;
    }
    let mut k: usize = 0;
    while k < items.len()
        invariant
            k <= items@.len(),
            view_seq(items@) == d.items,
            view_seq(headings@) == d.headings,
            hv == h@,
            d == doc@,
            match next {
                None => forall|q: int|
                    0 <= q < d.headings.len() ==> !((#[trigger] d.headings[q]).line > hv.line
                        && d.headings[q].level <= hv.level),
                Some(n) => (forall|q: int|
                    0 <= q < d.headings.len() && (#[trigger] d.headings[q]).line > hv.line
                        && d.headings[q].level <= hv.level ==> n <= d.headings[q].line) && exists|q: int|
                    0 <= q < d.headings.len() && (#[trigger] d.headings[q]).line > hv.line
                        && d.headings[q].level <= hv.level && d.headings[q].line == n,
            },
            forall|q: int|
                0 <= q < k ==> !((#[trigger] d.items[q]).line > hv.line && match next {
                    None => true,
                    Some(n) => d.items[q].line < n,
                }),
        decreases items@.len() - k,
    {
        let item = &items[k];
        proof {
            assert(item@ == d.items[k as int]);
        }
        let inside = item.line() > h.line() && match next {
            None => true,
            Some(n) => item.line() < n,
        };
        if inside {
            proof {
                assert forall|q: int|
                    0 <= q < d.headings.len() && (#[trigger] d.headings[q]).line > hv.line
                        && d.headings[q].level <= hv.level implies d.items[k as int].line
                    < d.headings[q].line by {}
                assert(section_has_item(d, hv));
            }
            return true;
        }
        k = k + 1;
    }
    proof {
        if section_has_item(d, hv) {
            let q = choose|q: int|
                0 <= q < d.items.len() && (#[trigger] d.items[q]).line > hv.line && forall|j: int|
                    0 <= j < d.headings.len() && (#[trigger] d.headings[j]).line > hv.line
                        && d.headings[j].level <= hv.level ==> d.items[q].line < d.headings[j].line;
            match next {
                None => {},
                Some(n) => {
                    let w = choose|w: int|
                        0 <= w < d.headings.len() && (#[trigger] d.headings[w]).line > hv.line
                            && d.headings[w].level <= hv.level && d.headings[w].line == n;
                    assert(d.items[q].line < d.headings[w].line);
                },
            }
        }
    }
    false
}

fn add_sections(
    kind: ArtifactKind,
    doc: &DocumentSnapshot,
    path: &ArtifactPath,
    out: &mut Vec<Diagnostic>,
)
    ensures
        view_seq(final(out)@) == view_seq(old(out)@) + required_headings(kind).flat_map(
            |r: Seq<char>| section_one(kind, doc@, path@, r),
        ),
{
    let ghost base = view_seq(out@);
    let required = required_headings_of(kind);
    let ghost all = required_headings(kind);
    let checklist = checklist_heading_of(kind);
    let headings = doc.headings();
    let mut i: usize = 0;
    while i < required.len()
        invariant
            i <= required@.len(),
            crate::text::str_views(required@) == all,
            all == required_headings(kind),
            view_seq(headings@) == doc@.headings,
            checklist is Some <==> checklist_heading(kind) is Some,
            checklist is Some ==> checklist->0@ == checklist_heading(kind)->0,
            view_seq(out@) == base + all.take(i as int).flat_map(
                |r: Seq<char>| section_one(kind, doc@, path@, r),
            ),
        decreases required@.len() - i,
    {
        let req = required[i];
        proof {
            assert(req@ == all[i as int]);
            all.lemma_flat_map_take_append(
                |r: Seq<char>| section_one(kind, doc@, path@, r),
                i as int,
            );
        }
        match find_heading_index(headings, req) {
            Some(j) => {
                let is_checklist = match checklist {
                    Some(c) => text_eq(c, req),
                    None => false,
                };
                if is_checklist && !section_has_item_of(doc, &headings[j]) {
                    let message = cat(
                        cat(owned("checklist section `"), req),
                        "` has no checklist items",
                    );
                    push_finding(
                        out,
                        path,
                        "CHECKLIST_ITEM",
                        message,
                        owned("add at least one checklist item to the required section"),
                        None,
                    );
                } else {
                    assert(view_seq(out@) =~= view_seq(out@) + Seq::<DiagView>::empty());
                }
            },
            None => {
                let message = cat(cat(owned("required section `"), req), "` is missing");
                let remediation = cat(cat(owned("add a Markdown heading named `"), req), "`");
                push_finding(out, path, "SECTION_REQUIRED", message, remediation, None);
            },
        }
        i = i + 1;
    }
    proof {
        assert(all.take(i as int) =~= all);
    }
}

fn add_document(
    kind: ArtifactKind,
    doc: &DocumentSnapshot,
    path: &ArtifactPath,
    out: &mut Vec<Diagnostic>,
)
    ensures
        view_seq(final(out)@) == view_seq(old(out)@) + document_findings(kind, doc@, path@),
{
    let ghost v0 = view_seq(out@);
    add_sections(kind, doc, path, out);
    let ghost v1 = view_seq(out@);
    match checklist_heading_of(kind) {
        Some(c) => {
            if find_heading_index(doc.headings(), c).is_none() {
                let message = cat(cat(owned("required checklist section `"), c), "` is missing");
                let remediation = cat(cat(owned("add a `"), c), "` heading and checklist items");
                push_finding(out, path, "CHECKLIST_SECTION", message, remediation, None);
            } else {
                assert(view_seq(out@) =~= view_seq(out@) + Seq::<DiagView>::empty());
            }
        },
        None => {
            assert(view_seq(out@) =~= view_seq(out@) + Seq::<DiagView>::empty());
        },
    }
    proof {
        assert(view_seq(out@) =~= v0 + document_findings(kind, doc@, path@));
    }
}


// ---------------------------------------------------------------------------
// Gherkin rules
// ---------------------------------------------------------------------------
fn add_step(present: bool, name: &str, path: &ArtifactPath, out: &mut Vec<Diagnostic>)
    ensures
        view_seq(final(out)@) == view_seq(old(out)@) + step_findings(present, name@, path@),
{
    if !present {
        let message = cat(cat(owned("the feature file has no `"), name), "` step");
        let remediation = cat(cat(owned("add a `"), name), "` step to a scenario");
        push_finding(out, path, "STEP_REQUIRED", message, remediation, None);
    } else {
        assert(view_seq(out@) =~= view_seq(out@) + Seq::<DiagView>::empty());
    }
}

fn has_gherkin_parse(diagnostics: &[Diagnostic]) -> (res: bool)
    ensures
        res == exists|i: int|
            0 <= i < diagnostics@.len() && ends_with(
                #[trigger] view_seq(diagnostics@)[i].rule,
                "GHERKIN_PARSE"@,
            ),
{
    let suffix = chars_of("GHERKIN_PARSE");
    let mut i: usize = 0;
    while i < diagnostics.len()
        invariant
            i <= diagnostics@.len(),
            suffix@ == "GHERKIN_PARSE"@,
            forall|k: int|
                0 <= k < i ==> !ends_with(
                    #[trigger] view_seq(diagnostics@)[k].rule,
                    "GHERKIN_PARSE"@,
                ),
        decreases diagnostics@.len() - i,
    {
        let rule = chars_of(diagnostics[i].rule_id().as_str());
        proof {
            assert(rule@ == view_seq(diagnostics@)[i as int].rule);
        }
        if chars_end_with(rule.as_slice(), suffix.as_slice()) {
            return true;
        }
        i = i + 1;
    }
    false
}

fn add_headers(feature: &crate::document::FeatureSnapshot, path: &ArtifactPath, out: &mut Vec<Diagnostic>)
    ensures
        view_seq(final(out)@) == view_seq(old(out)@) + header_parent_findings(feature@, path@)
            + header_status_findings(feature@, path@),
{
    let ghost v0 = view_seq(out@);
    let parent_ok = match feature.parent() {
        Some(p) => text_numbered(p, "US"),
        None => false,
    };
    if !parent_ok {
        push_finding(
            out,
            path,
            "HEADER_PARENT",
            owned("the `# parent:` header must contain a US-NNN identifier"),
            owned("add `# parent: US-NNN` with the owning story identifier"),
            None,
        );
    }
    proof {
        assert(view_seq(out@) =~= v0 + header_parent_findings(feature@, path@));
    }
    let ghost v1 = view_seq(out@);
    let status_ok = match feature.status() {
        Some(s) => allowed_status(s),
        None => false,
    };
    if !status_ok {
        push_finding(
            out,
            path,
            "HEADER_STATUS",
            owned("the `# status:` header must contain an allowed lifecycle value"),
            owned(
                "set `# status:` to draft, in-review, approved, implemented, archived, or released",
            ),
            None,
        );
    }
    proof {
        assert(view_seq(out@) =~= v1 + header_status_findings(feature@, path@));
    }
}

fn add_feature_shape(feature: &crate::document::FeatureSnapshot, path: &ArtifactPath, out: &mut Vec<Diagnostic>)
    ensures
        view_seq(final(out)@) == view_seq(old(out)@) + feature_shape_findings(feature@, path@),
{
    let ghost v0 = view_seq(out@);
    if feature.name().is_none() {
        push_finding(
            out,
            path,
            "FEATURE_REQUIRED",
            owned("the feature file must contain a Feature"),
            owned("add a Gherkin Feature declaration"),
            None,
        );
    }
    if feature.scenario_count() == 0 {
        push_finding(
            out,
            path,
            "SCENARIO_REQUIRED",
            owned("the feature file must contain at least one Scenario"),
            owned("add a Gherkin Scenario with Given, When, and Then steps"),
            None,
        );
    }
    proof {
        assert(view_seq(out@) =~= v0 + feature_shape_findings(feature@, path@));
    }
}

fn add_gherkin(doc: &DocumentSnapshot, path: &ArtifactPath, out: &mut Vec<Diagnostic>)
    ensures
        view_seq(final(out)@) == view_seq(old(out)@) + gherkin_findings(
            doc@,
            path@,
            view_seq(old(out)@),
        ),
{
    let ghost v0 = view_seq(out@);
    match doc.feature() {
        None => {
            if !has_gherkin_parse(out.as_slice()) {
                push_finding(
                    out,
                    path,
                    "GHERKIN_PARSE",
                    owned("the feature file could not be parsed"),
                    owned("provide valid Gherkin with a Feature and Scenario"),
                    None,
                );
            } else {
                assert(view_seq(out@) =~= view_seq(out@) + Seq::<DiagView>::empty());
            }
        },
        Some(feature) => {
            add_headers(feature, path, out);
            add_feature_shape(feature, path, out);
            add_step(feature.has_given(), "Given", path, out);
            add_step(feature.has_when(), "When", path, out);
            add_step(feature.has_then(), "Then", path, out);
            proof {
                assert(view_seq(out@) =~= v0 + gherkin_findings(doc@, path@, v0));
            }
        },
    }
}

// ---------------------------------------------------------------------------
// Placeholder rules
// ---------------------------------------------------------------------------
fn add_marker_text(path: &ArtifactPath, name: &str, t: &str, out: &mut Vec<Diagnostic>)
    ensures
        view_seq(final(out)@) == view_seq(old(out)@) + marker_text(path@, name@, t@),
{
    let ghost v0 = view_seq(out@);
    if unresolved(t) {
        let message = cat(
            cat(cat(cat(owned("metadata `"), name), "` contains unresolved value `"), t),
            "`",
        );
        push_finding(
            out,
            path,
            "PLACEHOLDER_UNRESOLVED",
            message,
            owned("replace the unresolved value with concrete artifact content"),
            None,
        );
    }
    let ghost v1 = view_seq(out@);
    if template_marker(t) {
        let message = cat(
            cat(owned("metadata `"), name),
            "` contains an unreplaced template marker",
        );
        push_finding(
            out,
            path,
            "PLACEHOLDER_TEMPLATE",
            message,
            owned("replace the template marker with a concrete value"),
            None,
        );
    }
    proof {
        assert(view_seq(out@) =~= v0 + marker_text(path@, name@, t@));
    }
}

fn add_marker_line(path: &ArtifactPath, line: &crate::document::SourceLine, out: &mut Vec<Diagnostic>)
    ensures
        view_seq(final(out)@) == view_seq(old(out)@) + marker_line(path@, line@),
{
    let ghost v0 = view_seq(out@);
    let location = Location::new(line.line(), None);
    proof {
        lemma_at_line(location, line@.line);
    }
    if unresolved(line.text()) {
        push_finding(
            out,
            path,
            "PLACEHOLDER_UNRESOLVED",
            owned("document content contains an unresolved value marker"),
            owned("replace the unresolved marker with concrete artifact content"),
            Some(location),
        );
    }
    if template_marker(line.text()) {
        push_finding(
            out,
            path,
            "PLACEHOLDER_TEMPLATE",
            owned("document content contains an unreplaced template marker"),
            owned("replace the template marker with concrete artifact content"),
            Some(location),
        );
    }
    proof {
        assert(view_seq(out@) =~= v0 + marker_line(path@, line@));
    }
}

fn add_markers(snapshot: &ArtifactSnapshot, out: &mut Vec<Diagnostic>)
    ensures
        view_seq(final(out)@) == view_seq(old(out)@) + marker_findings(snapshot@),
{
    let ghost s = snapshot@;
    let ghost base = view_seq(out@);
    let path = snapshot.path();
    let entries = snapshot.metadata().iter();
    let ghost es = s.metadata;
    let mut i: usize = 0;
    while i < entries.len()
        invariant
            i <= entries@.len(),
            crate::artifact::entry_views(entries@) == es,
            es == s.metadata,
            path@ == s.path,
            view_seq(out@) == base + es.take(i as int).flat_map(|e: Entry| marker_entry(s.path, e)),
        decreases entries@.len() - i,
    {
        let (name, value) = &entries[i];
        let texts = value_texts(value);
        let ghost all = value_strings(value@);
        let ghost before = view_seq(out@);
        proof {
            assert(es[i as int] == (name@, value@));
            es.lemma_flat_map_take_append(|e: Entry| marker_entry(s.path, e), i as int);
        }
        let mut j: usize = 0;
        while j < texts.len()
            invariant
                j <= texts@.len(),
                crate::text::str_views(texts@) == all,
                path@ == s.path,
                view_seq(out@) == before + all.take(j as int).flat_map(
                    |t: Seq<char>| marker_text(s.path, name@, t),
                ),
            decreases texts@.len() - j,
        {
            proof {
                assert(texts@[j as int]@ == all[j as int]);
                all.lemma_flat_map_take_append(|t: Seq<char>| marker_text(s.path, name@, t), j as int);
            }
            add_marker_text(path, name.as_str(), texts[j], out);
            j = j + 1;
        }
        proof {
            assert(all.take(j as int) =~= all);
        }
        i = i + 1;
    }
    proof {
        assert(es.take(i as int) =~= es);
    }
    let ghost mid = view_seq(out@);
    let lines = snapshot.document().lines();
    let ghost ls = s.document.lines;
    let mut k: usize = 0;
    while k < lines.len()
        invariant
            k <= lines@.len(),
            view_seq(lines@) == ls,
            path@ == s.path,
            view_seq(out@) == mid + ls.take(k as int).flat_map(|l: LineView| marker_line(s.path, l)),
        decreases lines@.len() - k,
    {
        proof {
            assert(lines@[k as int]@ == ls[k as int]);
            ls.lemma_flat_map_take_append(|l: LineView| marker_line(s.path, l), k as int);
        }
        add_marker_line(path, &lines[k], out);
        k = k + 1;
    }
    proof {
        assert(ls.take(k as int) =~= ls);
        assert(view_seq(out@) =~= base + marker_findings(s));
    }
}

// ---------------------------------------------------------------------------
// Entry point
// ---------------------------------------------------------------------------
/// Applies every pure structural rule to a normalized artifact.
pub fn validate_artifact(snapshot: &ArtifactSnapshot) -> (res: Vec<Diagnostic>)
    ensures
        view_seq(res@) == artifact_findings(snapshot@),
{
    let ghost s = snapshot@;
    let mut out = copy_all(snapshot.parser_diagnostics());
    let kind = snapshot.kind();
    let path = snapshot.path();
    if kind == ArtifactKind::Gherkin {
        add_gherkin(snapshot.document(), path, &mut out);
    } else {
        add_frontmatter(snapshot, &mut out);
        add_document(kind, snapshot.document(), path, &mut out);
    }
    add_markers(snapshot, &mut out);
    proof {
        assert(view_seq(out@) =~= s.parser + rule_findings(s));
    }
    sort_stable::<Diagnostic, StableOrder>(out)
}

/// The findings of an artifact are every parser finding and every rule
/// finding, each kept, ordered by rule, location, severity and message.
pub proof fn lemma_artifact_findings_ordered(s: SnapshotView)
    ensures
        artifact_findings(s).to_multiset() == (s.parser + rule_findings(s)).to_multiset(),
        crate::order::is_sorted::<Diagnostic, StableOrder>(artifact_findings(s)),
{
    crate::order::lemma_sorted_by_permutation::<Diagnostic, StableOrder>(s.parser + rule_findings(s));
    crate::order::lemma_sorted_by_sorted::<Diagnostic, StableOrder>(s.parser + rule_findings(s));
}

// ---------------------------------------------------------------------------
// A checklist section is satisfied by any item it holds
// ---------------------------------------------------------------------------
/// The finding for a required checklist section that holds no item.
pub open spec fn empty_checklist_finding(path: Seq<char>, c: Seq<char>) -> DiagView {
    finding(
        path,
        "CHECKLIST_ITEM"@,
        "checklist section `"@ + c + "` has no checklist items"@,
        "add at least one checklist item to the required section"@,
        None,
    )
}

/// The checklist section of a kind is one of its required sections.
proof fn lemma_checklist_heading_required(kind: ArtifactKind, c: Seq<char>)
    requires
        checklist_heading(kind) == Some(c),
    ensures
        required_headings(kind).contains(c),
{
    let hs = required_headings(kind);
    match kind {
        ArtifactKind::Prd => assert(hs[9] == c),
        ArtifactKind::Epic => assert(hs[7] == c),
        ArtifactKind::UserStory => assert(hs[9] == c),
        ArtifactKind::Task => assert(hs[5] == c),
        _ => {},
    }
}

/// Whether the checklist section of an artifact's document is reported
/// empty depends only on whether some checklist item, checked or not, lies
/// after its heading and before the next heading of the same or a higher
/// level.
pub proof fn lemma_checklist_item_finding(
    kind: ArtifactKind,
    doc: DocView,
    path: Seq<char>,
    c: Seq<char>,
    h: HeadingView,
)
    requires
        checklist_heading(kind) == Some(c),
        find_heading(doc.headings, c) == Some(h),
    ensures
        document_findings(kind, doc, path).contains(empty_checklist_finding(path, c)) <==> !exists|k: int|
            0 <= k < doc.items.len() && (#[trigger] doc.items[k]).line > h.line && forall|j: int|
                0 <= j < doc.headings.len() && (#[trigger] doc.headings[j]).line > h.line
                    && doc.headings[j].level <= h.level ==> doc.items[k].line < doc.headings[j].line,
{
    let fnd = empty_checklist_finding(path, c);
    let holds_item = exists|k: int|
        0 <= k < doc.items.len() && (#[trigger] doc.items[k]).line > h.line && forall|j: int|
            0 <= j < doc.headings.len() && (#[trigger] doc.headings[j]).line > h.line
                && doc.headings[j].level <= h.level ==> doc.items[k].line < doc.headings[j].line;
    let g = |r: Seq<char>| section_one(kind, doc, path, r);
    let a = required_headings(kind).flat_map(g);
    let b = checklist_findings(kind, doc, path);
    assert(b.len() == 0);
    assert(document_findings(kind, doc, path) == a + b);
    if !holds_item {
        assert(!section_has_item(doc, h));
        assert(section_one(kind, doc, path, c) == seq![fnd]);
        assert(g(c).contains(fnd)) by {
            assert(g(c)[0] == fnd);
        }
        lemma_checklist_heading_required(kind, c);
        crate::order::lemma_flat_map_has(required_headings(kind), g, c, fnd);
        let m = choose|m: int| 0 <= m < a.len() && a[m] == fnd;
        assert((a + b)[m] == fnd);
    } else {
        assert(section_has_item(doc, h)) by {
            let k = choose|k: int|
                0 <= k < doc.items.len() && (#[trigger] doc.items[k]).line > h.line && forall|j: int|
                    0 <= j < doc.headings.len() && (#[trigger] doc.headings[j]).line > h.line
                        && doc.headings[j].level <= h.level ==> doc.items[k].line < doc.headings[j].line;
            assert(doc.items[k].line > h.line);
        }
        if (a + b).contains(fnd) {
            let m = choose|m: int| 0 <= m < (a + b).len() && (a + b)[m] == fnd;
            assert(a[m] == fnd);
            assert(a.contains(fnd));
            crate::order::lemma_flat_map_member(required_headings(kind), g, fnd);
            let q = choose|q: int|
                0 <= q < required_headings(kind).len() && #[trigger] g(required_headings(kind)[q]).contains(fnd);
            let r = required_headings(kind)[q];
            match find_heading(doc.headings, r) {
                Some(h2) => {
                    assert(g(r).len() == 0);
                },
                None => {
                    reveal_strlit("SECTION_REQUIRED");
                    reveal_strlit("CHECKLIST_ITEM");
                    let other = g(r)[0];
                    assert(other.rule == rule_prefix(path) + "SECTION_REQUIRED"@);
                    assert(fnd.rule == rule_prefix(path) + "CHECKLIST_ITEM"@);
                    assert(other.rule.len() != fnd.rule.len());
                },
            }
        }
    }
}

} // verus!
