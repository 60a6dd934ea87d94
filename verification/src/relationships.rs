//! Relationship targets: every concrete local reference must name a
//! recognized artifact of the kind its field expects.
use crate::artifact::{meta_get, ArtifactKind, ArtifactPath, ArtifactSnapshot, MValue, SnapshotView};
use crate::copy::{view_seq, Duplicate};
use crate::diagnostic::{diag_view, lemma_lex_lt_facts, DiagView, Diagnostic, Severity};
use crate::order::{sort_stable, sorted_by, Order};
use crate::rules::{
    concrete_reference, is_concrete_reference, lemma_reference_tick_free, value_strings, value_texts,
};
use crate::text::{
    cat, chars_of, chars_upper, lemma_cancel_prefix, lemma_cancel_suffix, lemma_tick_free_concat,
    lemma_tick_free_upper, lemma_tick_split, lex_lt, owned, string_of, text_eq, tick, tick_free, upper,
};
use vstd::prelude::*;

verus! {

broadcast use vstd::string::group_string_axioms;

/// How a relationship field constrains its targets.
#[derive(Clone, Copy, Debug, PartialEq, Eq, Structural)]
pub enum RelationshipPolicy {
    /// The field is not a relationship for this kind.
    Ignore,
    /// Any recognized target is accepted.
    Any,
    /// The target must be of this kind.
    Expected(ArtifactKind),
}

/// The relationship fields.
pub open spec fn relationship_fields() -> Seq<Seq<char>> {
    seq![
        "parent"@,
        "epic"@,
        "depends_on"@,
        "requires"@,
        "blockers"@,
        "related"@,
        "supersedes"@,
        "superseded_by"@,
    ]
}

/// The policy of a field on an artifact of a kind.
pub open spec fn policy_of(kind: ArtifactKind, field: Seq<char>) -> RelationshipPolicy {
    if field == "parent"@ {
        match kind {
            ArtifactKind::Epic | ArtifactKind::UserStory => RelationshipPolicy::Expected(
                ArtifactKind::Prd,
            ),
            ArtifactKind::Requirements | ArtifactKind::Design | ArtifactKind::Task =>
                RelationshipPolicy::Expected(ArtifactKind::UserStory),
            _ => RelationshipPolicy::Ignore,
        }
    } else if field == "epic"@ && kind == ArtifactKind::UserStory {
        RelationshipPolicy::Expected(ArtifactKind::Epic)
    } else if field == "depends_on"@ || field == "requires"@ || field == "blockers"@ || field
        == "related"@ {
        RelationshipPolicy::Any
    } else if field == "supersedes"@ || field == "superseded_by"@ {
        RelationshipPolicy::Expected(kind)
    } else {
        RelationshipPolicy::Ignore
    }
}

/// Some snapshot has identifier `r`.
pub open spec fn has_target(s: Seq<SnapshotView>, r: Seq<char>) -> bool {
    exists|i: int| 0 <= i < s.len() && (#[trigger] s[i]).id == Some(r)
}

/// Some snapshot of kind `k` has identifier `r`.
pub open spec fn target_has_kind(s: Seq<SnapshotView>, r: Seq<char>, k: ArtifactKind) -> bool {
    exists|i: int| 0 <= i < s.len() && (#[trigger] s[i]).id == Some(r) && s[i].kind == k
}

/// The first kind, in report order, among the snapshots with identifier `r`.
pub open spec fn smallest_kind(s: Seq<SnapshotView>, r: Seq<char>) -> ArtifactKind {
    if target_has_kind(s, r, ArtifactKind::Prd) {
        ArtifactKind::Prd
    } else if target_has_kind(s, r, ArtifactKind::Epic) {
        ArtifactKind::Epic
    } else if target_has_kind(s, r, ArtifactKind::UserStory) {
        ArtifactKind::UserStory
    } else if target_has_kind(s, r, ArtifactKind::Gherkin) {
        ArtifactKind::Gherkin
    } else if target_has_kind(s, r, ArtifactKind::Requirements) {
        ArtifactKind::Requirements
    } else if target_has_kind(s, r, ArtifactKind::Design) {
        ArtifactKind::Design
    } else if target_has_kind(s, r, ArtifactKind::Adr) {
        ArtifactKind::Adr
    } else {
        ArtifactKind::Task
    }
}

/// The human label of a kind.
pub open spec fn display_text(kind: ArtifactKind) -> Seq<char> {
    match kind {
        ArtifactKind::Prd => "PRD"@,
        ArtifactKind::Epic => "epic"@,
        ArtifactKind::UserStory => "user story"@,
        ArtifactKind::Gherkin => "gherkin"@,
        ArtifactKind::Requirements => "requirements"@,
        ArtifactKind::Design => "design"@,
        ArtifactKind::Adr => "ADR"@,
        ArtifactKind::Task => "task"@,
    }
}

/// The label of a kind in findings: its token in upper case and its name.
pub open spec fn kind_label(kind: ArtifactKind) -> Seq<char> {
    upper(kind.token_text()) + " ("@ + display_text(kind) + ")"@
}

/// The finding for a reference to an unknown identifier.
pub open spec fn missing_target(path: Seq<char>, field: Seq<char>, r: Seq<char>) -> DiagView {
    diag_view(
        path,
        None,
        "ARTIFACT.RELATIONSHIP.MISSING_TARGET"@,
        Severity::Error,
        "relationship `"@ + field + "` references missing target `"@ + r + "`"@,
        "add a recognized artifact with identifier `"@ + r + "` or correct the `"@ + field
            + "` relationship"@,
    )
}

/// The finding for a reference to an artifact of the wrong kind.
pub open spec fn wrong_kind(
    path: Seq<char>,
    field: Seq<char>,
    r: Seq<char>,
    expected: ArtifactKind,
    actual: ArtifactKind,
) -> DiagView {
    diag_view(
        path,
        None,
        "ARTIFACT.RELATIONSHIP.WRONG_KIND"@,
        Severity::Error,
        "relationship `"@ + field + "` target `"@ + r + "` expects kind `"@ + kind_label(expected)
            + "` but resolved kind `"@ + kind_label(actual) + "`"@,
        "change `"@ + field + "` to a recognized "@ + kind_label(expected) + " identifier"@,
    )
}

/// The finding for one reference of a field.
pub open spec fn reference_finding(
    s: Seq<SnapshotView>,
    v: SnapshotView,
    field: Seq<char>,
    r: Seq<char>,
) -> Seq<DiagView> {
    if !is_concrete_reference(r) {
        seq![]
    } else if !has_target(s, r) {
        seq![missing_target(v.path, field, r)]
    } else {
        match policy_of(v.kind, field) {
            RelationshipPolicy::Expected(k) => if target_has_kind(s, r, k) {
                seq![]
            } else {
                seq![wrong_kind(v.path, field, r, k, smallest_kind(s, r))]
            },
            _ => seq![],
        }
    }
}

/// The findings for one field of a snapshot.
pub open spec fn field_findings(s: Seq<SnapshotView>, v: SnapshotView, field: Seq<char>) -> Seq<
    DiagView,
> {
    match meta_get(v.metadata, field) {
        Some(val) => if policy_of(v.kind, field) == RelationshipPolicy::Ignore {
            seq![]
        } else {
            value_strings(val).flat_map(|r: Seq<char>| reference_finding(s, v, field, r))
        },
        None => seq![],
    }
}

/// The findings for one snapshot.
pub open spec fn snapshot_findings(s: Seq<SnapshotView>, v: SnapshotView) -> Seq<DiagView> {
    relationship_fields().flat_map(|f: Seq<char>| field_findings(s, v, f))
}

/// The order of relationship findings: rule, path, message.
pub open spec fn relation_lt(a: DiagView, b: DiagView) -> bool {
    ||| lex_lt(a.rule, b.rule)
    ||| a.rule == b.rule && lex_lt(a.path, b.path)
    ||| a.rule == b.rule && a.path == b.path && lex_lt(a.message, b.message)
}

/// The order of relationship findings.
pub struct RelationOrder;

impl Order<Diagnostic> for RelationOrder {
    open spec fn before(a: DiagView, b: DiagView) -> bool {
        relation_lt(a, b)
    }

    proof fn lemma_transitive(a: DiagView, b: DiagView, c: DiagView) {
        lemma_lex_lt_facts(a.rule, b.rule, c.rule);
        lemma_lex_lt_facts(a.path, b.path, c.path);
        lemma_lex_lt_facts(a.message, b.message, c.message);
    }

    proof fn lemma_irreflexive(a: DiagView) {
        lemma_lex_lt_facts(a.rule, a.rule, a.rule);
        lemma_lex_lt_facts(a.path, a.path, a.path);
        lemma_lex_lt_facts(a.message, a.message, a.message);
    }

    fn precedes(a: &Diagnostic, b: &Diagnostic) -> (res: bool) {
        let ra = a.rule_id().as_str();
        let rb = b.rule_id().as_str();
        if crate::diagnostic::text_lt(ra, rb) {
            return true;
        }
        if !text_eq(ra, rb) {
            return false;
        }
        let pa = a.path().as_str();
        let pb = b.path().as_str();
        if crate::diagnostic::text_lt(pa, pb) {
            return true;
        }
        if !text_eq(pa, pb) {
            return false;
        }
        crate::diagnostic::text_lt(a.message(), b.message())
    }
}

/// The relationship findings of a repository snapshot.
pub open spec fn relationship_findings(s: Seq<SnapshotView>) -> Seq<DiagView> {
    sorted_by::<Diagnostic, RelationOrder>(s.flat_map(|v: SnapshotView| snapshot_findings(s, v)))
}


fn relationship_fields_of() -> (res: Vec<&'static str>)
    ensures
        crate::text::str_views(res@) == relationship_fields(),
{
    let res = vec![
        "parent",
        "epic",
        "depends_on",
        "requires",
        "blockers",
        "related",
        "supersedes",
        "superseded_by",
    ];
    proof {
        assert(crate::text::str_views(res@) =~= relationship_fields());
    }
    res
}

/// The policy of a field on an artifact of a kind.
pub fn relationship_policy(kind: ArtifactKind, field: &str) -> (res: RelationshipPolicy)
    ensures
        res == policy_of(kind, field@),
{
    if text_eq(field, "parent") {
        match kind {
            ArtifactKind::Epic | ArtifactKind::UserStory => RelationshipPolicy::Expected(
                ArtifactKind::Prd,
            ),
            ArtifactKind::Requirements | ArtifactKind::Design | ArtifactKind::Task =>
                RelationshipPolicy::Expected(ArtifactKind::UserStory),
            _ => RelationshipPolicy::Ignore,
        }
    } else if text_eq(field, "epic") && kind == ArtifactKind::UserStory {
        RelationshipPolicy::Expected(ArtifactKind::Epic)
    } else if text_eq(field, "depends_on") || text_eq(field, "requires") || text_eq(
        field,
        "blockers",
    ) || text_eq(field, "related") {
        RelationshipPolicy::Any
    } else if text_eq(field, "supersedes") || text_eq(field, "superseded_by") {
        RelationshipPolicy::Expected(kind)
    } else {
        RelationshipPolicy::Ignore
    }
}

/// Whether some snapshot has identifier `r`.
pub fn has_target_of(snapshots: &[ArtifactSnapshot], r: &str) -> (res: bool)
    ensures
        res == has_target(view_seq(snapshots@), r@),
{
    let ghost s = view_seq(snapshots@);
    let mut i: usize = 0;
    while i < snapshots.len()
        invariant
            i <= snapshots@.len(),
            s == view_seq(snapshots@),
            forall|k: int| 0 <= k < i ==> (#[trigger] s[k]).id != Some(r@),
        decreases snapshots@.len() - i,
    {
        proof {
            assert(snapshots@[i as int]@ == s[i as int]);
        }
        match snapshots[i].id() {
            Some(id) => {
                if text_eq(id.as_str(), r) {
                    return true;
                }
            },
            None => {},
        }
        i = i + 1;
    }
    false
}

/// Whether some snapshot of kind `k` has identifier `r`.
pub fn target_has_kind_of(snapshots: &[ArtifactSnapshot], r: &str, k: ArtifactKind) -> (res: bool)
    ensures
        res == target_has_kind(view_seq(snapshots@), r@, k),
{
    let ghost s = view_seq(snapshots@);
    let mut i: usize = 0;
    while i < snapshots.len()
        invariant
            i <= snapshots@.len(),
            s == view_seq(snapshots@),
            forall|q: int| 0 <= q < i ==> !((#[trigger] s[q]).id == Some(r@) && s[q].kind == k),
        decreases snapshots@.len() - i,
    {
        proof {
            assert(snapshots@[i as int]@ == s[i as int]);
        }
        match snapshots[i].id() {
            Some(id) => {
                if text_eq(id.as_str(), r) && snapshots[i].kind() == k {
                    return true;
                }
            },
            None => {},
        }
        i = i + 1;
    }
    false
}

fn smallest_kind_of(snapshots: &[ArtifactSnapshot], r: &str) -> (res: ArtifactKind)
    ensures
        res == smallest_kind(view_seq(snapshots@), r@),
{
    if target_has_kind_of(snapshots, r, ArtifactKind::Prd) {
        ArtifactKind::Prd
    } else if target_has_kind_of(snapshots, r, ArtifactKind::Epic) {
        ArtifactKind::Epic
    } else if target_has_kind_of(snapshots, r, ArtifactKind::UserStory) {
        ArtifactKind::UserStory
    } else if target_has_kind_of(snapshots, r, ArtifactKind::Gherkin) {
        ArtifactKind::Gherkin
    } else if target_has_kind_of(snapshots, r, ArtifactKind::Requirements) {
        ArtifactKind::Requirements
    } else if target_has_kind_of(snapshots, r, ArtifactKind::Design) {
        ArtifactKind::Design
    } else if target_has_kind_of(snapshots, r, ArtifactKind::Adr) {
        ArtifactKind::Adr
    } else {
        ArtifactKind::Task
    }
}

fn display_name(kind: ArtifactKind) -> (res: &'static str)
    ensures
        res@ == display_text(kind),
{
    match kind {
        ArtifactKind::Prd => "PRD",
        ArtifactKind::Epic => "epic",
        ArtifactKind::UserStory => "user story",
        ArtifactKind::Gherkin => "gherkin",
        ArtifactKind::Requirements => "requirements",
        ArtifactKind::Design => "design",
        ArtifactKind::Adr => "ADR",
        ArtifactKind::Task => "task",
    }
}

/// The label of a kind in findings.
pub fn kind_label_of(kind: ArtifactKind) -> (res: String)
    ensures
        res@ == kind_label(kind),
{
    let t = chars_of(kind.token());
    let up = chars_upper(t.as_slice());
    let up_text = string_of(up.as_slice());
    cat(cat(cat(up_text, " ("), display_name(kind)), ")")
}

fn add_reference_finding(
    snapshots: &[ArtifactSnapshot],
    v: &ArtifactSnapshot,
    field: &str,
    r: &str,
    out: &mut Vec<Diagnostic>,
)
    ensures
        view_seq(final(out)@) == view_seq(old(out)@) + reference_finding(
            view_seq(snapshots@),
            v@,
            field@,
            r@,
        ),
{
    let ghost s = view_seq(snapshots@);
    if !concrete_reference(r) {
        assert(view_seq(out@) =~= view_seq(out@) + Seq::<DiagView>::empty());
        return ;
    }
    if !has_target_of(snapshots, r) {
        let message = cat(
            cat(cat(cat(owned("relationship `"), field), "` references missing target `"), r),
            "`",
        );
        let remediation = cat(
            cat(
                cat(cat(owned("add a recognized artifact with identifier `"), r), "` or correct the `"),
                field,
            ),
            "` relationship",
        );
        let d = Diagnostic::from_parts(
            v.path().duplicate(),
            None,
            owned("ARTIFACT.RELATIONSHIP.MISSING_TARGET"),
            Severity::Error,
            message,
            remediation,
        );
        proof {
            crate::copy::lemma_view_seq_push(out@, d);
        }
        out.push(d);
        return ;
    }
    match relationship_policy(v.kind(), field) {
        RelationshipPolicy::Expected(k) => {
            if target_has_kind_of(snapshots, r, k) {
                assert(view_seq(out@) =~= view_seq(out@) + Seq::<DiagView>::empty());
            } else {
                let actual = smallest_kind_of(snapshots, r);
                let expected_label = kind_label_of(k);
                let actual_label = kind_label_of(actual);
                let message = cat(
                    cat(
                        cat(
                            cat(
                                cat(cat(cat(owned("relationship `"), field), "` target `"), r),
                                "` expects kind `",
                            ),
                            expected_label.as_str(),
                        ),
                        "` but resolved kind `",
                    ),
                    actual_label.as_str(),
                );
                let message = cat(message, "`");
                let remediation = cat(
                    cat(cat(cat(owned("change `"), field), "` to a recognized "), expected_label.as_str()),
                    " identifier",
                );
                let d = Diagnostic::from_parts(
                    v.path().duplicate(),
                    None,
                    owned("ARTIFACT.RELATIONSHIP.WRONG_KIND"),
                    Severity::Error,
                    message,
                    remediation,
                );
                proof {
                    crate::copy::lemma_view_seq_push(out@, d);
                }
                out.push(d);
            }
        },
        _ => {
            assert(view_seq(out@) =~= view_seq(out@) + Seq::<DiagView>::empty());
        },
    }
}

fn add_field_findings(
    snapshots: &[ArtifactSnapshot],
    v: &ArtifactSnapshot,
    field: &str,
    out: &mut Vec<Diagnostic>,
)
    ensures
        view_seq(final(out)@) == view_seq(old(out)@) + field_findings(
            view_seq(snapshots@),
            v@,
            field@,
        ),
{
    let ghost s = view_seq(snapshots@);
    let ghost base = view_seq(out@);
    match v.metadata().get(field) {
        None => {
            assert(view_seq(out@) =~= base + Seq::<DiagView>::empty());
        },
        Some(value) => {
            if relationship_policy(v.kind(), field) == RelationshipPolicy::Ignore {
                assert(view_seq(out@) =~= base + Seq::<DiagView>::empty());
                return ;
            }
            let refs = value_texts(value);
            let ghost all = value_strings(value@);
            let mut i: usize = 0;
            while i < refs.len()
                invariant
                    i <= refs@.len(),
                    s == view_seq(snapshots@),
                    crate::text::str_views(refs@) == all,
                    view_seq(out@) == base + all.take(i as int).flat_map(
                        |r: Seq<char>| reference_finding(s, v@, field@, r),
                    ),
                decreases refs@.len() - i,
            {
                proof {
                    assert(refs@[i as int]@ == all[i as int]);
                    all.lemma_flat_map_take_append(
                        |r: Seq<char>| reference_finding(s, v@, field@, r),
                        i as int,
                    );
                }
                add_reference_finding(snapshots, v, field, refs[i], out);
                i = i + 1;
            }
            proof {
                assert(all.take(i as int) =~= all);
            }
        },
    }
}

fn add_snapshot_findings(snapshots: &[ArtifactSnapshot], v: &ArtifactSnapshot, out: &mut Vec<Diagnostic>)
    ensures
        view_seq(final(out)@) == view_seq(old(out)@) + snapshot_findings(view_seq(snapshots@), v@),
{
    let ghost s = view_seq(snapshots@);
    let ghost base = view_seq(out@);
    let fields = relationship_fields_of();
    let ghost all = relationship_fields();
    let mut i: usize = 0;
    while i < fields.len()
        invariant
            i <= fields@.len(),
            s == view_seq(snapshots@),
            crate::text::str_views(fields@) == all,
            all == relationship_fields(),
            view_seq(out@) == base + all.take(i as int).flat_map(
                |f: Seq<char>| field_findings(s, v@, f),
            ),
        decreases fields@.len() - i,
    {
        proof {
            assert(fields@[i as int]@ == all[i as int]);
            all.lemma_flat_map_take_append(|f: Seq<char>| field_findings(s, v@, f), i as int);
        }
        add_field_findings(snapshots, v, fields[i], out);
        i = i + 1;
    }
    proof {
        assert(all.take(i as int) =~= all);
    }
}

/// Evaluates concrete local relationship targets across one repository
/// snapshot.
pub fn validate_relationships(snapshots: &[ArtifactSnapshot]) -> (res: Vec<Diagnostic>)
    ensures
        view_seq(res@) == relationship_findings(view_seq(snapshots@)),
{
    let ghost s = view_seq(snapshots@);
    let mut out: Vec<Diagnostic> = Vec::new();
    let mut k: usize = 0;
    while k < snapshots.len()
        invariant
            k <= snapshots@.len(),
            s == view_seq(snapshots@),
            view_seq(out@) == s.take(k as int).flat_map(|v: SnapshotView| snapshot_findings(s, v)),
        decreases snapshots@.len() - k,
    {
        proof {
            s.lemma_flat_map_take_append(|v: SnapshotView| snapshot_findings(s, v), k as int);
            assert(snapshots@[k as int]@ == s[k as int]);
        }
        add_snapshot_findings(snapshots, &snapshots[k], &mut out);
        k = k + 1;
    }
    proof {
        assert(s.take(k as int) =~= s);
    }
    sort_stable::<Diagnostic, RelationOrder>(out)
}

// ---------------------------------------------------------------------------
// The findings do not depend on the order of the snapshots
// ---------------------------------------------------------------------------
/// A finding of one of the two relationship shapes, over backtick-free field
/// and reference texts.
pub open spec fn relation_shaped(d: DiagView) -> bool {
    ||| exists|f: Seq<char>, r: Seq<char>|
        tick_free(f) && tick_free(r) && d == #[trigger] missing_target(d.path, f, r)
    ||| exists|f: Seq<char>, r: Seq<char>, e: ArtifactKind, a: ArtifactKind|
        tick_free(f) && tick_free(r) && d == #[trigger] wrong_kind(d.path, f, r, e, a)
}

proof fn lemma_fields_tick_free()
    ensures
        forall|i: int|
            0 <= i < relationship_fields().len() ==> tick_free(#[trigger] relationship_fields()[i]),
{
    reveal_strlit("parent");
    reveal_strlit("epic");
    reveal_strlit("depends_on");
    reveal_strlit("requires");
    reveal_strlit("blockers");
    reveal_strlit("related");
    reveal_strlit("supersedes");
    reveal_strlit("superseded_by");
}

proof fn lemma_kind_label_tick_free(k: ArtifactKind)
    ensures
        tick_free(kind_label(k)),
{
    reveal_strlit("prd");
    reveal_strlit("epic");
    reveal_strlit("user-story");
    reveal_strlit("gherkin");
    reveal_strlit("requirements");
    reveal_strlit("design");
    reveal_strlit("adr");
    reveal_strlit("task");
    reveal_strlit("PRD");
    reveal_strlit("user story");
    reveal_strlit("ADR");
    reveal_strlit(" (");
    reveal_strlit(")");
    let t = k.token_text();
    assert(tick_free(t));
    lemma_tick_free_upper(t);
    assert(tick_free(" ("@));
    assert(tick_free(display_text(k)));
    assert(tick_free(")"@));
    lemma_tick_free_concat(upper(t), " ("@);
    lemma_tick_free_concat(upper(t) + " ("@, display_text(k));
    lemma_tick_free_concat(upper(t) + " ("@ + display_text(k), ")"@);
}

proof fn lemma_reference_finding_shaped(s: Seq<SnapshotView>, v: SnapshotView, f: Seq<char>, r: Seq<char>)
    requires
        tick_free(f),
    ensures
        forall|d: DiagView| reference_finding(s, v, f, r).contains(d) ==> relation_shaped(d),
{
    if is_concrete_reference(r) {
        lemma_reference_tick_free(r);
        assert forall|d: DiagView| reference_finding(s, v, f, r).contains(d) implies relation_shaped(
            d,
        ) by {
            let out = reference_finding(s, v, f, r);
            assert(out.len() == 1);
            assert(d == out[0]);
            if !has_target(s, r) {
                assert(d == missing_target(d.path, f, r));
            } else {
                let k = match policy_of(v.kind, f) {
                    RelationshipPolicy::Expected(k) => k,
                    _ => ArtifactKind::Prd,
                };
                assert(d == wrong_kind(d.path, f, r, k, smallest_kind(s, r)));
            }
        }
    }
}

proof fn lemma_snapshot_findings_shaped(s: Seq<SnapshotView>, v: SnapshotView)
    ensures
        forall|d: DiagView| snapshot_findings(s, v).contains(d) ==> relation_shaped(d),
{
    lemma_fields_tick_free();
    let outer = |f: Seq<char>| field_findings(s, v, f);
    assert forall|d: DiagView| snapshot_findings(s, v).contains(d) implies relation_shaped(d) by {
        crate::order::lemma_flat_map_member(relationship_fields(), outer, d);
        let i = choose|i: int|
            0 <= i < relationship_fields().len() && #[trigger] outer(relationship_fields()[i]).contains(d);
        let f = relationship_fields()[i];
        assert(tick_free(f));
        match meta_get(v.metadata, f) {
            Some(val) => {
                let inner = |r: Seq<char>| reference_finding(s, v, f, r);
                crate::order::lemma_flat_map_member(value_strings(val), inner, d);
                let j = choose|j: int|
                    0 <= j < value_strings(val).len() && #[trigger] inner(value_strings(val)[j]).contains(d);
                lemma_reference_finding_shaped(s, v, f, value_strings(val)[j]);
            },
            None => {},
        }
    }
}

proof fn lemma_relation_rules_differ()
    ensures
        "ARTIFACT.RELATIONSHIP.MISSING_TARGET"@ != "ARTIFACT.RELATIONSHIP.WRONG_KIND"@,
{
    reveal_strlit("ARTIFACT.RELATIONSHIP.MISSING_TARGET");
    reveal_strlit("ARTIFACT.RELATIONSHIP.WRONG_KIND");
    assert("ARTIFACT.RELATIONSHIP.MISSING_TARGET"@.len() != "ARTIFACT.RELATIONSHIP.WRONG_KIND"@.len());
}

proof fn lemma_missing_message_parts(f1: Seq<char>, r1: Seq<char>, f2: Seq<char>, r2: Seq<char>)
    requires
        tick_free(f1),
        tick_free(f2),
        tick_free(r1),
        tick_free(r2),
        "relationship `"@ + f1 + "` references missing target `"@ + r1 + "`"@ == "relationship `"@ + f2
            + "` references missing target `"@ + r2 + "`"@,
    ensures
        f1 == f2,
        r1 == r2,
{
    reveal_strlit("relationship `");
    reveal_strlit("` references missing target `");
    reveal_strlit("`");
    reveal_strlit("relationship ");
    reveal_strlit(" references missing target ");
    let head = "relationship "@ + tick();
    let mid = " references missing target "@ + tick();
    let t1 = f1 + tick() + (mid + (r1 + tick()));
    let t2 = f2 + tick() + (mid + (r2 + tick()));
    assert("relationship `"@ + f1 + "` references missing target `"@ + r1 + "`"@ =~= head + t1);
    assert("relationship `"@ + f2 + "` references missing target `"@ + r2 + "`"@ =~= head + t2);
    lemma_cancel_prefix(head, t1, t2);
    lemma_tick_split(f1, mid + (r1 + tick()), f2, mid + (r2 + tick()));
    lemma_cancel_prefix(mid, r1 + tick(), r2 + tick());
    lemma_cancel_suffix(r1, r2, tick());
}

proof fn lemma_wrong_message_parts(
    f1: Seq<char>,
    r1: Seq<char>,
    l1: Seq<char>,
    m1: Seq<char>,
    f2: Seq<char>,
    r2: Seq<char>,
    l2: Seq<char>,
    m2: Seq<char>,
)
    requires
        tick_free(f1),
        tick_free(f2),
        tick_free(r1),
        tick_free(r2),
        tick_free(l1),
        tick_free(l2),
        "relationship `"@ + f1 + "` target `"@ + r1 + "` expects kind `"@ + l1 + "` but resolved kind `"@
            + m1 + "`"@ == "relationship `"@ + f2 + "` target `"@ + r2 + "` expects kind `"@ + l2
            + "` but resolved kind `"@ + m2 + "`"@,
    ensures
        f1 == f2,
        r1 == r2,
        l1 == l2,
{
    reveal_strlit("relationship `");
    reveal_strlit("` target `");
    reveal_strlit("` expects kind `");
    reveal_strlit("` but resolved kind `");
    reveal_strlit("`");
    reveal_strlit("relationship ");
    reveal_strlit(" target ");
    reveal_strlit(" expects kind ");
    reveal_strlit(" but resolved kind ");
    let head = "relationship "@ + tick();
    let target = " target "@ + tick();
    let expects = " expects kind "@ + tick();
    let resolved = " but resolved kind "@ + tick();
    let tail1 = resolved + (m1 + tick());
    let tail2 = resolved + (m2 + tick());
    let rest1 = expects + (l1 + tick() + tail1);
    let rest2 = expects + (l2 + tick() + tail2);
    let t1 = f1 + tick() + (target + (r1 + tick() + rest1));
    let t2 = f2 + tick() + (target + (r2 + tick() + rest2));
    assert("relationship `"@ + f1 + "` target `"@ + r1 + "` expects kind `"@ + l1 + "` but resolved kind `"@
        + m1 + "`"@ =~= head + t1);
    assert("relationship `"@ + f2 + "` target `"@ + r2 + "` expects kind `"@ + l2 + "` but resolved kind `"@
        + m2 + "`"@ =~= head + t2);
    lemma_cancel_prefix(head, t1, t2);
    lemma_tick_split(f1, target + (r1 + tick() + rest1), f2, target + (r2 + tick() + rest2));
    lemma_cancel_prefix(target, r1 + tick() + rest1, r2 + tick() + rest2);
    lemma_tick_split(r1, rest1, r2, rest2);
    lemma_cancel_prefix(expects, l1 + tick() + tail1, l2 + tick() + tail2);
    lemma_tick_split(l1, tail1, l2, tail2);
}

proof fn lemma_relation_shaped_unique(d1: DiagView, d2: DiagView)
    requires
        relation_shaped(d1),
        relation_shaped(d2),
        d1.rule == d2.rule,
        d1.path == d2.path,
        d1.message == d2.message,
    ensures
        d1 == d2,
{
    lemma_relation_rules_differ();
    if exists|f: Seq<char>, r: Seq<char>|
        tick_free(f) && tick_free(r) && d1 == #[trigger] missing_target(d1.path, f, r) {
        let (f1, r1) = choose|f: Seq<char>, r: Seq<char>|
            tick_free(f) && tick_free(r) && d1 == #[trigger] missing_target(d1.path, f, r);
        let (f2, r2) = choose|f: Seq<char>, r: Seq<char>|
            tick_free(f) && tick_free(r) && d2 == #[trigger] missing_target(d2.path, f, r);
        lemma_missing_message_parts(f1, r1, f2, r2);
    } else {
        let (f1, r1, e1, a1) = choose|f: Seq<char>, r: Seq<char>, e: ArtifactKind, a: ArtifactKind|
            tick_free(f) && tick_free(r) && d1 == #[trigger] wrong_kind(d1.path, f, r, e, a);
        let (f2, r2, e2, a2) = choose|f: Seq<char>, r: Seq<char>, e: ArtifactKind, a: ArtifactKind|
            tick_free(f) && tick_free(r) && d2 == #[trigger] wrong_kind(d2.path, f, r, e, a);
        lemma_kind_label_tick_free(e1);
        lemma_kind_label_tick_free(e2);
        lemma_wrong_message_parts(f1, r1, kind_label(e1), kind_label(a1), f2, r2, kind_label(e2), kind_label(a2));
        assert(d1.remediation == d2.remediation);
    }
}

/// The relationship findings of a repository do not depend on the order in
/// which its snapshots come: permutations of one another give the same
/// findings in the same order.
pub proof fn lemma_relationship_findings_order_independent(
    s1: Seq<SnapshotView>,
    s2: Seq<SnapshotView>,
)
    requires
        s1.to_multiset() == s2.to_multiset(),
    ensures
        relationship_findings(s1) == relationship_findings(s2),
{
    crate::order::lemma_permutation_contains(s1, s2);
    assert forall|r: Seq<char>| has_target(s1, r) == has_target(s2, r) by {
        if has_target(s1, r) {
            let i = choose|i: int| 0 <= i < s1.len() && (#[trigger] s1[i]).id == Some(r);
            assert(s1.contains(s1[i]));
        }
        if has_target(s2, r) {
            let i = choose|i: int| 0 <= i < s2.len() && (#[trigger] s2[i]).id == Some(r);
            assert(s2.contains(s2[i]));
        }
    }
    assert forall|r: Seq<char>, k: ArtifactKind| target_has_kind(s1, r, k) == target_has_kind(s2, r, k) by {
        if target_has_kind(s1, r, k) {
            let i = choose|i: int| 0 <= i < s1.len() && (#[trigger] s1[i]).id == Some(r) && s1[i].kind == k;
            assert(s1.contains(s1[i]));
        }
        if target_has_kind(s2, r, k) {
            let i = choose|i: int| 0 <= i < s2.len() && (#[trigger] s2[i]).id == Some(r) && s2[i].kind == k;
            assert(s2.contains(s2[i]));
        }
    }
    assert forall|v: SnapshotView| #[trigger] snapshot_findings(s1, v) == snapshot_findings(s2, v) by {
        assert forall|f: Seq<char>| #[trigger] field_findings(s1, v, f) == field_findings(s2, v, f) by {
            assert forall|r: Seq<char>| #[trigger] reference_finding(s1, v, f, r) == reference_finding(s2, v, f, r) by {
                assert(smallest_kind(s1, r) == smallest_kind(s2, r));
            }
            assert((|r: Seq<char>| reference_finding(s1, v, f, r)) =~= (|r: Seq<char>| reference_finding(s2, v, f, r)));
        }
        assert((|f: Seq<char>| field_findings(s1, v, f)) =~= (|f: Seq<char>| field_findings(s2, v, f)));
    }
    let g = |v: SnapshotView| snapshot_findings(s1, v);
    assert(g =~= (|v: SnapshotView| snapshot_findings(s2, v)));
    let all1 = s1.flat_map(g);
    let all2 = s2.flat_map(g);
    crate::order::lemma_flat_map_permutation(s1, s2, g);
    assert forall|a: DiagView, b: DiagView|
        all1.contains(a) && all1.contains(b) && !relation_lt(a, b) && !relation_lt(b, a) implies a == b by {
        crate::order::lemma_flat_map_member(s1, g, a);
        crate::order::lemma_flat_map_member(s1, g, b);
        let i = choose|i: int| 0 <= i < s1.len() && #[trigger] g(s1[i]).contains(a);
        let j = choose|j: int| 0 <= j < s1.len() && #[trigger] g(s1[j]).contains(b);
        lemma_snapshot_findings_shaped(s1, s1[i]);
        lemma_snapshot_findings_shaped(s1, s1[j]);
        lemma_lex_lt_facts(a.rule, b.rule, a.rule);
        lemma_lex_lt_facts(a.path, b.path, a.path);
        lemma_lex_lt_facts(a.message, b.message, a.message);
        lemma_relation_shaped_unique(a, b);
    }
    crate::order::lemma_sorted_by_order_independent::<Diagnostic, RelationOrder>(all1, all2);
}

/// Some relationship field of some snapshot of `s` holds the text `x`.
pub open spec fn named_by(s: Seq<SnapshotView>, x: Seq<char>) -> bool {
    exists|i: int, f: Seq<char>|
        0 <= i < s.len() && relationship_fields().contains(f) && match #[trigger] meta_get(
            s[i].metadata,
            f,
        ) {
            Some(val) => value_strings(val).contains(x),
            None => false,
        }
}

/// Adding snapshots that no relationship of the repository names, and whose
/// own relationships raise no finding, leaves the relationship findings
/// unchanged.
pub proof fn lemma_relationship_findings_unrelated_additions(s: Seq<SnapshotView>, e: Seq<SnapshotView>)
    requires
        forall|i: int|
            0 <= i < e.len() ==> match (#[trigger] e[i]).id {
                Some(x) => !named_by(s, x),
                None => true,
            },
        forall|i: int| 0 <= i < e.len() ==> snapshot_findings(s + e, #[trigger] e[i]).len() == 0,
    ensures
        relationship_findings(s + e) == relationship_findings(s),
{
    let se = s + e;
    let g_se = |v: SnapshotView| snapshot_findings(se, v);
    let g_s = |v: SnapshotView| snapshot_findings(s, v);
    crate::order::lemma_flat_map_concat(s, e, g_se);
    crate::order::lemma_flat_map_empty(e, g_se);
    assert forall|k: int| 0 <= k < s.len() implies g_se(#[trigger] s[k]) == g_s(s[k]) by {
        let v = s[k];
        let outer_se = |f: Seq<char>| field_findings(se, v, f);
        let outer_s = |f: Seq<char>| field_findings(s, v, f);
        assert forall|m: int| 0 <= m < relationship_fields().len() implies outer_se(
            #[trigger] relationship_fields()[m],
        ) == outer_s(relationship_fields()[m]) by {
            let f = relationship_fields()[m];
            assert(relationship_fields().contains(f));
            match meta_get(v.metadata, f) {
                Some(val) => {
                    let inner_se = |r: Seq<char>| reference_finding(se, v, f, r);
                    let inner_s = |r: Seq<char>| reference_finding(s, v, f, r);
                    assert forall|q: int| 0 <= q < value_strings(val).len() implies inner_se(
                        #[trigger] value_strings(val)[q],
                    ) == inner_s(value_strings(val)[q]) by {
                        let r = value_strings(val)[q];
                        assert(value_strings(val).contains(r));
                        assert(named_by(s, r));
                        assert forall|j: int| 0 <= j < se.len() && (#[trigger] se[j]).id == Some(r) implies j
                            < s.len() by {
                            if j >= s.len() {
                                assert(se[j] == e[j - s.len()]);
                            }
                        }
                        if has_target(se, r) {
                            let j = choose|j: int| 0 <= j < se.len() && (#[trigger] se[j]).id == Some(r);
                            assert(se[j] == s[j]);
                        }
                        if has_target(s, r) {
                            let j = choose|j: int| 0 <= j < s.len() && (#[trigger] s[j]).id == Some(r);
                            assert(se[j] == s[j]);
                        }
                        assert forall|kind: ArtifactKind| target_has_kind(se, r, kind) == target_has_kind(
                            s,
                            r,
                            kind,
                        ) by {
                            if target_has_kind(se, r, kind) {
                                let j = choose|j: int|
                                    0 <= j < se.len() && (#[trigger] se[j]).id == Some(r) && se[j].kind == kind;
                                assert(se[j] == s[j]);
                            }
                            if target_has_kind(s, r, kind) {
                                let j = choose|j: int|
                                    0 <= j < s.len() && (#[trigger] s[j]).id == Some(r) && s[j].kind == kind;
                                assert(se[j] == s[j]);
                            }
                        }
                        assert(smallest_kind(se, r) == smallest_kind(s, r));
                    }
                    crate::order::lemma_flat_map_congruent(value_strings(val), inner_se, inner_s);
                },
                None => {},
            }
        }
        crate::order::lemma_flat_map_congruent(relationship_fields(), outer_se, outer_s);
    }
    crate::order::lemma_flat_map_congruent(s, g_se, g_s);
    assert(se.flat_map(g_se) =~= s.flat_map(g_s));
}

// ---------------------------------------------------------------------------
// What each relationship field reports
// ---------------------------------------------------------------------------
proof fn lemma_field_names_distinct()
    ensures
        "parent"@ != "epic"@,
        "parent"@ != "depends_on"@,
        "parent"@ != "requires"@,
        "parent"@ != "blockers"@,
        "parent"@ != "related"@,
        "parent"@ != "supersedes"@,
        "parent"@ != "superseded_by"@,
        "epic"@ != "depends_on"@,
        "epic"@ != "requires"@,
        "epic"@ != "blockers"@,
        "epic"@ != "related"@,
        "epic"@ != "supersedes"@,
        "epic"@ != "superseded_by"@,
        "depends_on"@ != "supersedes"@,
        "depends_on"@ != "superseded_by"@,
        "requires"@ != "supersedes"@,
        "requires"@ != "superseded_by"@,
        "blockers"@ != "supersedes"@,
        "blockers"@ != "superseded_by"@,
        "related"@ != "supersedes"@,
        "related"@ != "superseded_by"@,
{
    reveal_strlit("parent");
    reveal_strlit("epic");
    reveal_strlit("depends_on");
    reveal_strlit("requires");
    reveal_strlit("blockers");
    reveal_strlit("related");
    reveal_strlit("supersedes");
    reveal_strlit("superseded_by");
    assert("parent"@.len() != "epic"@.len());
    assert("parent"@.len() != "depends_on"@.len());
    assert("parent"@[0] != "requires"@[0]);
    assert("parent"@.len() != "blockers"@.len());
    assert("parent"@[0] != "related"@[0]);
    assert("parent"@.len() != "supersedes"@.len());
    assert("parent"@.len() != "superseded_by"@.len());
    assert("epic"@.len() != "depends_on"@.len());
    assert("epic"@.len() != "requires"@.len());
    assert("epic"@.len() != "blockers"@.len());
    assert("epic"@.len() != "related"@.len());
    assert("epic"@.len() != "supersedes"@.len());
    assert("epic"@.len() != "superseded_by"@.len());
    assert("depends_on"@[0] != "supersedes"@[0]);
    assert("depends_on"@[0] != "superseded_by"@[0]);
    assert("requires"@[0] != "supersedes"@[0]);
    assert("requires"@[0] != "superseded_by"@[0]);
    assert("blockers"@[0] != "supersedes"@[0]);
    assert("blockers"@[0] != "superseded_by"@[0]);
    assert("related"@[0] != "supersedes"@[0]);
    assert("related"@[0] != "superseded_by"@[0]);
}

/// A finding of one reference of a field that the artifact's kind uses is a
/// relationship finding of the repository.
proof fn lemma_reference_finding_reported(
    s: Seq<SnapshotView>,
    i: int,
    field: Seq<char>,
    val: MValue,
    r: Seq<char>,
    d: DiagView,
)
    requires
        0 <= i < s.len(),
        relationship_fields().contains(field),
        meta_get(s[i].metadata, field) == Some(val),
        policy_of(s[i].kind, field) != RelationshipPolicy::Ignore,
        value_strings(val).contains(r),
        reference_finding(s, s[i], field, r).contains(d),
    ensures
        relationship_findings(s).contains(d),
{
    let v = s[i];
    let inner = |q: Seq<char>| reference_finding(s, v, field, q);
    crate::order::lemma_flat_map_has(value_strings(val), inner, r, d);
    assert(field_findings(s, v, field).contains(d));
    let per_field = |f: Seq<char>| field_findings(s, v, f);
    crate::order::lemma_flat_map_has(relationship_fields(), per_field, field, d);
    let per_snapshot = |w: SnapshotView| snapshot_findings(s, w);
    assert(s.contains(v));
    crate::order::lemma_flat_map_has(s, per_snapshot, v, d);
    crate::order::lemma_sorted_by_contains::<Diagnostic, RelationOrder>(s.flat_map(per_snapshot), d);
}

/// A concrete reference to an identifier that no artifact carries is
/// reported missing, in every field that the artifact's kind treats as a
/// relationship: `parent` on epics, user stories, requirements, designs and
/// task lists; `epic` on user stories; and the dependency, `related` and
/// supersession fields on every kind.
pub proof fn lemma_missing_target_reported(
    s: Seq<SnapshotView>,
    i: int,
    field: Seq<char>,
    val: MValue,
    r: Seq<char>,
)
    requires
        0 <= i < s.len(),
        (field == "parent"@ && (s[i].kind == ArtifactKind::Epic || s[i].kind == ArtifactKind::UserStory
            || s[i].kind == ArtifactKind::Requirements || s[i].kind == ArtifactKind::Design
            || s[i].kind == ArtifactKind::Task)) || (field == "epic"@ && s[i].kind
            == ArtifactKind::UserStory) || field == "depends_on"@ || field == "requires"@ || field
            == "blockers"@ || field == "related"@ || field == "supersedes"@ || field == "superseded_by"@,
        meta_get(s[i].metadata, field) == Some(val),
        value_strings(val).contains(r),
        is_concrete_reference(r),
        forall|j: int| 0 <= j < s.len() ==> (#[trigger] s[j]).id != Some(r),
    ensures
        relationship_findings(s).contains(missing_target(s[i].path, field, r)),
{
    lemma_field_names_distinct();
    let d = missing_target(s[i].path, field, r);
    assert(!has_target(s, r));
    assert(reference_finding(s, s[i], field, r) == seq![d]);
    assert(reference_finding(s, s[i], field, r)[0] == d);
    let fs = relationship_fields();
    assert(fs[0] == "parent"@ && fs[1] == "epic"@ && fs[2] == "depends_on"@ && fs[3] == "requires"@);
    assert(fs[4] == "blockers"@ && fs[5] == "related"@ && fs[6] == "supersedes"@ && fs[7] == "superseded_by"@);
    assert(fs.contains(field));
    lemma_reference_finding_reported(s, i, field, val, r, d);
}

/// A concrete reference whose artifacts include none of the kind that the
/// field expects is reported as the wrong kind, naming the expected kind and
/// the kind of an artifact that carries the identifier: `parent` of an epic
/// or user story expects a PRD, `parent` of requirements, a design or a task
/// list expects a user story, `epic` of a user story expects an epic, and a
/// supersession field expects the artifact's own kind.
pub proof fn lemma_wrong_kind_reported(
    s: Seq<SnapshotView>,
    i: int,
    field: Seq<char>,
    val: MValue,
    r: Seq<char>,
    expected: ArtifactKind,
    t: int,
)
    requires
        0 <= i < s.len(),
        (field == "parent"@ && (s[i].kind == ArtifactKind::Epic || s[i].kind == ArtifactKind::UserStory)
            && expected == ArtifactKind::Prd) || (field == "parent"@ && (s[i].kind
            == ArtifactKind::Requirements || s[i].kind == ArtifactKind::Design || s[i].kind
            == ArtifactKind::Task) && expected == ArtifactKind::UserStory) || (field == "epic"@
            && s[i].kind == ArtifactKind::UserStory && expected == ArtifactKind::Epic) || ((field
            == "supersedes"@ || field == "superseded_by"@) && expected == s[i].kind),
        meta_get(s[i].metadata, field) == Some(val),
        value_strings(val).contains(r),
        is_concrete_reference(r),
        0 <= t < s.len(),
        s[t].id == Some(r),
        forall|j: int| 0 <= j < s.len() && (#[trigger] s[j]).id == Some(r) ==> s[j].kind != expected,
    ensures
        exists|j: int|
            0 <= j < s.len() && (#[trigger] s[j]).id == Some(r) && relationship_findings(s).contains(
                wrong_kind(s[i].path, field, r, expected, s[j].kind),
            ),
{
    lemma_field_names_distinct();
    assert(has_target(s, r));
    assert(!target_has_kind(s, r, expected));
    assert(policy_of(s[i].kind, field) == RelationshipPolicy::Expected(expected));
    let a = smallest_kind(s, r);
    let d = wrong_kind(s[i].path, field, r, expected, a);
    assert(reference_finding(s, s[i], field, r) == seq![d]);
    assert(reference_finding(s, s[i], field, r)[0] == d);
    let fs = relationship_fields();
    assert(fs[0] == "parent"@ && fs[1] == "epic"@ && fs[6] == "supersedes"@ && fs[7] == "superseded_by"@);
    assert(fs.contains(field));
    lemma_reference_finding_reported(s, i, field, val, r, d);
    assert(target_has_kind(s, r, s[t].kind));
    assert(target_has_kind(s, r, a));
    let j = choose|j: int| 0 <= j < s.len() && (#[trigger] s[j]).id == Some(r) && s[j].kind == a;
    assert(s[j].kind == a);
}

// ---------------------------------------------------------------------------
// The relationship findings are exactly those of the checked entries
// ---------------------------------------------------------------------------
/// The kind that `field` of an artifact of kind `kind` requires of its
/// target: `parent` of an epic or user story a PRD, `parent` of requirements,
/// a design or a task list a user story, `epic` of a user story an epic, and
/// a supersession field the artifact's own kind.
pub open spec fn requires_kind(kind: ArtifactKind, field: Seq<char>, k: ArtifactKind) -> bool {
    ||| field == "parent"@ && (kind == ArtifactKind::Epic || kind == ArtifactKind::UserStory) && k
        == ArtifactKind::Prd
    ||| field == "parent"@ && (kind == ArtifactKind::Requirements || kind == ArtifactKind::Design || kind
        == ArtifactKind::Task) && k == ArtifactKind::UserStory
    ||| field == "epic"@ && kind == ArtifactKind::UserStory && k == ArtifactKind::Epic
    ||| (field == "supersedes"@ || field == "superseded_by"@) && k == kind
}

/// The fields that accept a target of any kind.
pub open spec fn any_kind_field(field: Seq<char>) -> bool {
    field == "depends_on"@ || field == "requires"@ || field == "blockers"@ || field == "related"@
}

/// A field that an artifact of a kind treats as a relationship.
pub open spec fn checked_field(kind: ArtifactKind, field: Seq<char>) -> bool {
    any_kind_field(field) || exists|k: ArtifactKind| #[trigger] requires_kind(kind, field, k)
}

/// `a` is the first kind, in report order, among the artifacts with
/// identifier `r`.
pub open spec fn first_kind_of(s: Seq<SnapshotView>, r: Seq<char>, a: ArtifactKind) -> bool {
    &&& exists|t: int| 0 <= t < s.len() && (#[trigger] s[t]).id == Some(r) && s[t].kind == a
    &&& forall|t: int| 0 <= t < s.len() && (#[trigger] s[t]).id == Some(r) ==> a.rank() <= s[t].kind.rank()
}

/// `d` is the finding of reference `r` in `field` of artifact `i`: a
/// concrete reference in a checked field that names no artifact is missing,
/// and one whose artifacts include none of the required kind is of the
/// wrong kind, naming the first kind it resolves to.
pub open spec fn entry_finding(s: Seq<SnapshotView>, i: int, f: Seq<char>, r: Seq<char>, d: DiagView) -> bool {
    &&& 0 <= i < s.len()
    &&& checked_field(s[i].kind, f)
    &&& (meta_get(s[i].metadata, f) matches Some(val) && value_strings(val).contains(r))
    &&& is_concrete_reference(r)
    &&& {
        ||| (forall|t: int| 0 <= t < s.len() ==> (#[trigger] s[t]).id != Some(r)) && d == missing_target(
            s[i].path,
            f,
            r,
        )
        ||| exists|k: ArtifactKind, a: ArtifactKind|
            requires_kind(s[i].kind, f, k) && has_target(s, r) && (forall|t: int|
                0 <= t < s.len() && (#[trigger] s[t]).id == Some(r) ==> s[t].kind != k) && first_kind_of(
                s,
                r,
                a,
            ) && d == #[trigger] wrong_kind(s[i].path, f, r, k, a)
    }
}

proof fn lemma_policy_table(kind: ArtifactKind, f: Seq<char>)
    ensures
        policy_of(kind, f) == RelationshipPolicy::Any <==> any_kind_field(f),
        forall|k: ArtifactKind| policy_of(kind, f) == RelationshipPolicy::Expected(k) <==> #[trigger] requires_kind(kind, f, k),
        policy_of(kind, f) != RelationshipPolicy::Ignore <==> checked_field(kind, f),
        checked_field(kind, f) ==> relationship_fields().contains(f),
{
    lemma_field_names_distinct();
    reveal_strlit("depends_on");
    reveal_strlit("requires");
    reveal_strlit("blockers");
    reveal_strlit("related");
    assert("depends_on"@[0] != "requires"@[0]);
    assert("depends_on"@[0] != "blockers"@[0]);
    assert("depends_on"@.len() != "related"@.len());
    assert("requires"@[0] != "blockers"@[0]);
    assert("requires"@[2] != "related"@[2]);
    assert("blockers"@[0] != "related"@[0]);
    let fs = relationship_fields();
    assert(fs[0] == "parent"@ && fs[1] == "epic"@ && fs[2] == "depends_on"@ && fs[3] == "requires"@);
    assert(fs[4] == "blockers"@ && fs[5] == "related"@ && fs[6] == "supersedes"@ && fs[7] == "superseded_by"@);
    if policy_of(kind, f) != RelationshipPolicy::Ignore && !any_kind_field(f) {
        let k = policy_of(kind, f)->Expected_0;
        assert(requires_kind(kind, f, k));
    }
    if checked_field(kind, f) && !any_kind_field(f) {
        let k = choose|k: ArtifactKind| #[trigger] requires_kind(kind, f, k);
        assert(policy_of(kind, f) == RelationshipPolicy::Expected(k));
    }
}

proof fn lemma_smallest_kind_first(s: Seq<SnapshotView>, r: Seq<char>)
    requires
        has_target(s, r),
    ensures
        first_kind_of(s, r, smallest_kind(s, r)),
        forall|a: ArtifactKind| first_kind_of(s, r, a) ==> a == smallest_kind(s, r),
{
    let t0 = choose|t: int| 0 <= t < s.len() && (#[trigger] s[t]).id == Some(r);
    assert(target_has_kind(s, r, s[t0].kind));
    let m = smallest_kind(s, r);
    assert(target_has_kind(s, r, m));
    assert forall|t: int| 0 <= t < s.len() && (#[trigger] s[t]).id == Some(r) implies m.rank() <= s[t].kind.rank() by {
        assert(target_has_kind(s, r, s[t].kind));
    }
    assert forall|a: ArtifactKind| first_kind_of(s, r, a) implies a == m by {
        let ta = choose|t: int| 0 <= t < s.len() && (#[trigger] s[t]).id == Some(r) && s[t].kind == a;
        let tm = choose|t: int| 0 <= t < s.len() && (#[trigger] s[t]).id == Some(r) && s[t].kind == m;
        assert(a.rank() <= m.rank());
        assert(m.rank() <= a.rank());
    }
}

/// The relationship findings of a repository are exactly the findings of
/// its checked relationship entries.
pub proof fn lemma_relationship_findings_exact(s: Seq<SnapshotView>, d: DiagView)
    ensures
        relationship_findings(s).contains(d) <==> exists|i: int, f: Seq<char>, r: Seq<char>|
            #[trigger] entry_finding(s, i, f, r, d),
{
    broadcast use vstd::seq_lib::group_to_multiset_ensures;

    if exists|i: int, f: Seq<char>, r: Seq<char>| #[trigger] entry_finding(s, i, f, r, d) {
        let (i, f, r) = choose|i: int, f: Seq<char>, r: Seq<char>| #[trigger] entry_finding(s, i, f, r, d);
        lemma_policy_table(s[i].kind, f);
        let val = meta_get(s[i].metadata, f)->0;
        if forall|t: int| 0 <= t < s.len() ==> (#[trigger] s[t]).id != Some(r) {
            assert(!has_target(s, r));
            assert(reference_finding(s, s[i], f, r) == seq![d]);
        } else {
            let (k, a) = choose|k: ArtifactKind, a: ArtifactKind|
                requires_kind(s[i].kind, f, k) && has_target(s, r) && (forall|t: int|
                    0 <= t < s.len() && (#[trigger] s[t]).id == Some(r) ==> s[t].kind != k) && first_kind_of(
                    s,
                    r,
                    a,
                ) && d == #[trigger] wrong_kind(s[i].path, f, r, k, a);
            lemma_smallest_kind_first(s, r);
            assert(a == smallest_kind(s, r));
            assert(!target_has_kind(s, r, k));
            assert(reference_finding(s, s[i], f, r) == seq![d]);
        }
        assert(reference_finding(s, s[i], f, r)[0] == d);
        lemma_reference_finding_reported(s, i, f, val, r, d);
    }
    if relationship_findings(s).contains(d) {
        let per_snapshot = |w: SnapshotView| snapshot_findings(s, w);
        let all = s.flat_map(per_snapshot);
        crate::order::lemma_sorted_by_permutation::<Diagnostic, RelationOrder>(all);
        assert(relationship_findings(s).to_multiset().count(d) > 0);
        assert(all.contains(d));
        crate::order::lemma_flat_map_member(s, per_snapshot, d);
        let i = choose|i: int| 0 <= i < s.len() && #[trigger] per_snapshot(s[i]).contains(d);
        let v = s[i];
        let per_field = |g: Seq<char>| field_findings(s, v, g);
        crate::order::lemma_flat_map_member(relationship_fields(), per_field, d);
        let j = choose|j: int|
            0 <= j < relationship_fields().len() && #[trigger] per_field(relationship_fields()[j]).contains(d);
        let f = relationship_fields()[j];
        lemma_policy_table(v.kind, f);
        let val = meta_get(v.metadata, f)->0;
        let inner = |q: Seq<char>| reference_finding(s, v, f, q);
        crate::order::lemma_flat_map_member(value_strings(val), inner, d);
        let k = choose|k: int| 0 <= k < value_strings(val).len() && #[trigger] inner(value_strings(val)[k]).contains(d);
        let r = value_strings(val)[k];
        assert(value_strings(val).contains(r));
        assert(is_concrete_reference(r));
        if !has_target(s, r) {
            assert(d == missing_target(v.path, f, r));
            assert(entry_finding(s, i, f, r, d));
        } else {
            let e = policy_of(v.kind, f)->Expected_0;
            assert(requires_kind(v.kind, f, e));
            lemma_smallest_kind_first(s, r);
            assert(d == wrong_kind(v.path, f, r, e, smallest_kind(s, r)));
            assert forall|t: int| 0 <= t < s.len() && (#[trigger] s[t]).id == Some(r) implies s[t].kind != e by {
                if s[t].kind == e {
                    assert(target_has_kind(s, r, e));
                }
            }
            assert(entry_finding(s, i, f, r, d));
        }
    }
}

} // verus!
