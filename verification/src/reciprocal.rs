//! Reciprocal relationships: a `related` link must be returned, and each
//! supersession must be recorded in the opposite direction on its target.
use crate::artifact::{
    meta_get, ArtifactKind, ArtifactSnapshot, MValue, MetadataValue,
    SnapshotView,
};
use crate::copy::{view_seq, Duplicate};
use crate::diagnostic::{diag_view, lemma_lex_lt_facts, DiagView, Diagnostic, Severity};
use crate::identity::distinct;
use crate::order::{sort_stable, sorted_by, Order};
use crate::relationships::{has_target, has_target_of, target_has_kind, target_has_kind_of};
use crate::rules::{
    concrete_reference, is_concrete_reference, lemma_reference_tick_free, value_strings, value_texts,
};
use crate::text::{
    cat, lemma_cancel_prefix, lemma_cancel_suffix, lemma_tick_split, lex_lt, owned, text_eq, tick, tick_free,
};
use vstd::prelude::*;

verus! {

broadcast use vstd::string::group_string_axioms;

/// The fields whose links must be reciprocal.
pub open spec fn reciprocal_fields() -> Seq<Seq<char>> {
    seq!["related"@, "supersedes"@, "superseded_by"@]
}

/// The field on the target that must hold the source.
pub open spec fn reverse_field(f: Seq<char>) -> Seq<char> {
    if f == "related"@ {
        "related"@
    } else if f == "supersedes"@ {
        "superseded_by"@
    } else {
        "supersedes"@
    }
}

/// The kind a target must have for the link to be checked.
pub open spec fn expected_target(kind: ArtifactKind, f: Seq<char>) -> Option<ArtifactKind> {
    if f == "related"@ {
        None
    } else {
        Some(kind)
    }
}

/// `related` holds a sequence, the supersession fields a scalar.
pub open spec fn reciprocal_shape(f: Seq<char>, v: MValue) -> bool {
    if f == "related"@ {
        v is Sequence
    } else {
        v is Scalar
    }
}

/// The concrete references of a value, each once.
pub open spec fn concrete_refs(v: MValue) -> Seq<Seq<char>> {
    distinct(
        value_strings(v).flat_map(
            |r: Seq<char>|
                if is_concrete_reference(r) {
                    seq![r]
                } else {
                    seq![]
                },
        ),
    )
}

/// Some artifact with identifier `r` lists the concrete reference `x` in a
/// well-shaped `field`.
pub open spec fn member(s: Seq<SnapshotView>, r: Seq<char>, field: Seq<char>, x: Seq<char>) -> bool {
    exists|j: int|
        0 <= j < s.len() && (#[trigger] s[j]).id == Some(r) && match meta_get(s[j].metadata, field) {
            Some(val) => reciprocal_shape(field, val) && value_strings(val).contains(x)
                && is_concrete_reference(x),
            None => false,
        }
}

/// The finding for a link that its target does not return.
pub open spec fn non_reciprocal(
    path: Seq<char>,
    field: Seq<char>,
    target: Seq<char>,
    source: Seq<char>,
) -> DiagView {
    diag_view(
        path,
        None,
        "ARTIFACT.RELATIONSHIP.NON_RECIPROCAL"@,
        Severity::Error,
        "relationship `"@ + field + "` to `"@ + target
            + "` is not reciprocal; target must contain `"@ + source + "` in its reverse `"@
            + reverse_field(field) + "` field"@,
        "add `"@ + source + "` to `"@ + reverse_field(field) + "` on artifact `"@ + target
            + "` to complete the reciprocal relationship"@,
    )
}

/// The finding for one link.
pub open spec fn reciprocal_one(
    s: Seq<SnapshotView>,
    v: SnapshotView,
    source: Seq<char>,
    field: Seq<char>,
    r: Seq<char>,
) -> Seq<DiagView> {
    if !has_target(s, r) {
        seq![]
    } else if expected_target(v.kind, field) is Some && !target_has_kind(
        s,
        r,
        expected_target(v.kind, field)->0,
    ) {
        seq![]
    } else if member(s, r, reverse_field(field), source) {
        seq![]
    } else {
        seq![non_reciprocal(v.path, field, r, source)]
    }
}

/// The findings for one field of a snapshot.
pub open spec fn field_reciprocity(s: Seq<SnapshotView>, v: SnapshotView, field: Seq<char>) -> Seq<
    DiagView,
> {
    match v.id {
        None => seq![],
        Some(source) => match meta_get(v.metadata, field) {
            Some(val) => if reciprocal_shape(field, val) {
                concrete_refs(val).flat_map(|r: Seq<char>| reciprocal_one(s, v, source, field, r))
            } else {
                seq![]
            },
            None => seq![],
        },
    }
}

/// The findings for one snapshot.
pub open spec fn snapshot_reciprocity(s: Seq<SnapshotView>, v: SnapshotView) -> Seq<DiagView> {
    reciprocal_fields().flat_map(|f: Seq<char>| field_reciprocity(s, v, f))
}

/// The order of findings by path, then message.
pub open spec fn path_message_lt(a: DiagView, b: DiagView) -> bool {
    ||| lex_lt(a.path, b.path)
    ||| a.path == b.path && lex_lt(a.message, b.message)
}

/// The order of findings by path, then message.
pub struct PathMessageOrder;

impl Order<Diagnostic> for PathMessageOrder {
    open spec fn before(a: DiagView, b: DiagView) -> bool {
        path_message_lt(a, b)
    }

    proof fn lemma_transitive(a: DiagView, b: DiagView, c: DiagView) {
        lemma_lex_lt_facts(a.path, b.path, c.path);
        lemma_lex_lt_facts(a.message, b.message, c.message);
    }

    proof fn lemma_irreflexive(a: DiagView) {
        lemma_lex_lt_facts(a.path, a.path, a.path);
        lemma_lex_lt_facts(a.message, a.message, a.message);
    }

    fn precedes(a: &Diagnostic, b: &Diagnostic) -> (res: bool) {
        let pa = a.path().as_str();
        let pb = b.path().as_str();
        if crate::diagnostic::text_lt(pa, pb) {
            return true;
        }
        if !text_eq(pa, pb) {
            return false;
        }
        crate::diagnostic::text_lt(a.message(), b.message())
    }
}

/// The reciprocity findings of a repository snapshot.
pub open spec fn reciprocal_findings(s: Seq<SnapshotView>) -> Seq<DiagView> {
    sorted_by::<Diagnostic, PathMessageOrder>(s.flat_map(|v: SnapshotView| snapshot_reciprocity(s, v)))
}

fn reverse_field_of(f: &str) -> (res: &'static str)
    ensures
        res@ == reverse_field(f@),
{
    if text_eq(f, "related") {
        "related"
    } else if text_eq(f, "supersedes") {
        "superseded_by"
    } else {
        "supersedes"
    }
}

fn reciprocal_shape_of(f: &str, v: &MetadataValue) -> (res: bool)
    ensures
        res == reciprocal_shape(f@, v@),
{
    if text_eq(f, "related") {
        matches!(v, MetadataValue::Sequence(_))
    } else {
        matches!(v, MetadataValue::Scalar(_))
    }
}

/// Whether `needle` occurs in a list of strings.
pub fn texts_contain(items: &[&str], needle: &str) -> (res: bool)
    ensures
        res == crate::text::str_views(items@).contains(needle@),
{
    let mut i: usize = 0;
    while i < items.len()
        invariant
            i <= items@.len(),
            forall|k: int| 0 <= k < i ==> crate::text::str_views(items@)[k] != needle@,
        decreases items@.len() - i,
    {
        if text_eq(items[i], needle) {
            proof {
                assert(crate::text::str_views(items@)[i as int] == needle@);
            }
            return true;
        }
        i = i + 1;
    }
    false
}

/// `concrete_refs` on a metadata value.
fn concrete_refs_of(v: &MetadataValue) -> (res: Vec<&str>)
    ensures
        crate::text::str_views(res@) == concrete_refs(v@),
{
    let texts = value_texts(v);
    let ghost all = value_strings(v@);
    let mut out: Vec<&str> = Vec::new();
    let mut i: usize = 0;
    while i < texts.len()
        invariant
            i <= texts@.len(),
            crate::text::str_views(texts@) == all,
            crate::text::str_views(out@) == distinct(
                all.take(i as int).flat_map(
                    |r: Seq<char>|
                        if is_concrete_reference(r) {
                            seq![r]
                        } else {
                            seq![]
                        },
                ),
            ),
        decreases texts@.len() - i,
    {
        let r = texts[i];
        let ghost before = all.take(i as int).flat_map(
            |r: Seq<char>|
                if is_concrete_reference(r) {
                    seq![r]
                } else {
                    seq![]
                },
        );
        proof {
            assert(r@ == all[i as int]);
            all.lemma_flat_map_take_append(
                |r: Seq<char>|
                    if is_concrete_reference(r) {
                        seq![r]
                    } else {
                        seq![]
                    },
                i as int,
            );
        }
        if concrete_reference(r) {
            proof {
                assert((before + seq![r@]).drop_last() =~= before);
                assert((before + seq![r@]).last() == r@);
            }
            if !texts_contain(out.as_slice(), r) {
                proof {
                    assert(crate::text::str_views(out@.push(r)) =~= crate::text::str_views(
                        out@,
                    ).push(r@));
                }
                out.push(r);
            }
        } else {
            proof {
                assert(before + Seq::<Seq<char>>::empty() =~= before);
            }
        }
        i = i + 1;
    }
    proof {
        assert(all.take(i as int) =~= all);
    }
    out
}

/// `member` on snapshots.
fn member_of(snapshots: &[ArtifactSnapshot], r: &str, field: &str, x: &str) -> (res: bool)
    ensures
        res == member(view_seq(snapshots@), r@, field@, x@),
{
    let ghost s = view_seq(snapshots@);
    let x_concrete = concrete_reference(x);
    let mut j: usize = 0;
    while j < snapshots.len()
        invariant
            j <= snapshots@.len(),
            s == view_seq(snapshots@),
            x_concrete == is_concrete_reference(x@),
            forall|q: int|
                0 <= q < j ==> !((#[trigger] s[q]).id == Some(r@) && match meta_get(
                    s[q].metadata,
                    field@,
                ) {
                    Some(val) => reciprocal_shape(field@, val) && value_strings(val).contains(x@)
                        && is_concrete_reference(x@),
                    None => false,
                }),
        decreases snapshots@.len() - j,
    {
        let snap = &snapshots[j];
        proof {
            assert(snap@ == s[j as int]);
        }
        let id_matches = match snap.id() {
            Some(id) => text_eq(id.as_str(), r),
            None => false,
        };
        if id_matches {
            match snap.metadata().get(field) {
                Some(value) => {
                    if reciprocal_shape_of(field, value) && x_concrete {
                        let texts = value_texts(value);
                        if texts_contain(texts.as_slice(), x) {
                            return true;
                        }
                    }
                },
                None => {},
            }
        }
        j = j + 1;
    }
    false
}

fn add_reciprocal_one(
    snapshots: &[ArtifactSnapshot],
    v: &ArtifactSnapshot,
    source: &str,
    field: &str,
    r: &str,
    out: &mut Vec<Diagnostic>,
)
    ensures
        view_seq(final(out)@) == view_seq(old(out)@) + reciprocal_one(
            view_seq(snapshots@),
            v@,
            source@,
            field@,
            r@,
        ),
{
    let is_related = text_eq(field, "related");
    let checked = if !has_target_of(snapshots, r) {
        false
    } else if !is_related && !target_has_kind_of(snapshots, r, v.kind()) {
        false
    } else {
        !member_of(snapshots, r, reverse_field_of(field), source)
    };
    if checked {
        let reverse = reverse_field_of(field);
        let message = cat(
            cat(
                cat(
                    cat(
                        cat(
                            cat(cat(cat(owned("relationship `"), field), "` to `"), r),
                            "` is not reciprocal; target must contain `",
                        ),
                        source,
                    ),
                    "` in its reverse `",
                ),
                reverse,
            ),
            "` field",
        );
        let remediation = cat(
            cat(
                cat(cat(cat(cat(owned("add `"), source), "` to `"), reverse), "` on artifact `"),
                r,
            ),
            "` to complete the reciprocal relationship",
        );
        let d = Diagnostic::from_parts(
            v.path().duplicate(),
            None,
            owned("ARTIFACT.RELATIONSHIP.NON_RECIPROCAL"),
            Severity::Error,
            message,
            remediation,
        );
        proof {
            crate::copy::lemma_view_seq_push(out@, d);
        }
        out.push(d);
    } else {
        assert(view_seq(out@) =~= view_seq(out@) + Seq::<DiagView>::empty());
    }
}

fn add_field_reciprocity(
    snapshots: &[ArtifactSnapshot],
    v: &ArtifactSnapshot,
    field: &str,
    out: &mut Vec<Diagnostic>,
)
    ensures
        view_seq(final(out)@) == view_seq(old(out)@) + field_reciprocity(
            view_seq(snapshots@),
            v@,
            field@,
        ),
{
    let ghost s = view_seq(snapshots@);
    let ghost base = view_seq(out@);
    let source = match v.id() {
        Some(id) => id.as_str(),
        None => {
            assert(view_seq(out@) =~= base + Seq::<DiagView>::empty());
            return ;
        },
    };
    let value = match v.metadata().get(field) {
        Some(value) => value,
        None => {
            assert(view_seq(out@) =~= base + Seq::<DiagView>::empty());
            return ;
        },
    };
    if !reciprocal_shape_of(field, value) {
        assert(view_seq(out@) =~= base + Seq::<DiagView>::empty());
        return ;
    }
    let refs = concrete_refs_of(value);
    let ghost all = concrete_refs(value@);
    let mut i: usize = 0;
    while i < refs.len()
        invariant
            i <= refs@.len(),
            s == view_seq(snapshots@),
            crate::text::str_views(refs@) == all,
            view_seq(out@) == base + all.take(i as int).flat_map(
                |r: Seq<char>| reciprocal_one(s, v@, source@, field@, r),
            ),
        decreases refs@.len() - i,
    {
        proof {
            assert(refs@[i as int]@ == all[i as int]);
            all.lemma_flat_map_take_append(
                |r: Seq<char>| reciprocal_one(s, v@, source@, field@, r),
                i as int,
            );
        }
        add_reciprocal_one(snapshots, v, source, field, refs[i], out);
        i = i + 1;
    }
    proof {
        assert(all.take(i as int) =~= all);
    }
}

fn add_snapshot_reciprocity(
    snapshots: &[ArtifactSnapshot],
    v: &ArtifactSnapshot,
    out: &mut Vec<Diagnostic>,
)
    ensures
        view_seq(final(out)@) == view_seq(old(out)@) + snapshot_reciprocity(view_seq(snapshots@), v@),
{
    let ghost s = view_seq(snapshots@);
    let ghost base = view_seq(out@);
    let fields = vec!["related", "supersedes", "superseded_by"];
    let ghost all = reciprocal_fields();
    proof {
        assert(crate::text::str_views(fields@) =~= all);
    }
    let mut i: usize = 0;
    while i < fields.len()
        invariant
            i <= fields@.len(),
            s == view_seq(snapshots@),
            crate::text::str_views(fields@) == all,
            all == reciprocal_fields(),
            view_seq(out@) == base + all.take(i as int).flat_map(
                |f: Seq<char>| field_reciprocity(s, v@, f),
            ),
        decreases fields@.len() - i,
    {
        proof {
            assert(fields@[i as int]@ == all[i as int]);
            all.lemma_flat_map_take_append(|f: Seq<char>| field_reciprocity(s, v@, f), i as int);
        }
        add_field_reciprocity(snapshots, v, fields[i], out);
        i = i + 1;
    }
    proof {
        assert(all.take(i as int) =~= all);
    }
}

/// Evaluates reciprocal membership for concrete relationship entries.
pub fn validate_reciprocal_relationships(snapshots: &[ArtifactSnapshot]) -> (res: Vec<Diagnostic>)
    ensures
        view_seq(res@) == reciprocal_findings(view_seq(snapshots@)),
{
    let ghost s = view_seq(snapshots@);
    let mut out: Vec<Diagnostic> = Vec::new();
    let mut k: usize = 0;
    while k < snapshots.len()
        invariant
            k <= snapshots@.len(),
            s == view_seq(snapshots@),
            view_seq(out@) == s.take(k as int).flat_map(
                |v: SnapshotView| snapshot_reciprocity(s, v),
            ),
        decreases snapshots@.len() - k,
    {
        proof {
            s.lemma_flat_map_take_append(|v: SnapshotView| snapshot_reciprocity(s, v), k as int);
            assert(snapshots@[k as int]@ == s[k as int]);
        }
        add_snapshot_reciprocity(snapshots, &snapshots[k], &mut out);
        k = k + 1;
    }
    proof {
        assert(s.take(k as int) =~= s);
    }
    sort_stable::<Diagnostic, PathMessageOrder>(out)
}

// ---------------------------------------------------------------------------
// The findings do not depend on the order of the snapshots
// ---------------------------------------------------------------------------
/// A finding of the reciprocity shape over backtick-free field and target
/// texts.
pub open spec fn reciprocity_shaped(d: DiagView) -> bool {
    exists|f: Seq<char>, r: Seq<char>, src: Seq<char>|
        tick_free(f) && tick_free(r) && d == #[trigger] non_reciprocal(d.path, f, r, src)
}

proof fn lemma_reciprocal_fields_tick_free()
    ensures
        forall|i: int| 0 <= i < reciprocal_fields().len() ==> tick_free(#[trigger] reciprocal_fields()[i]),
{
    reveal_strlit("related");
    reveal_strlit("supersedes");
    reveal_strlit("superseded_by");
}

proof fn lemma_concrete_refs_concrete(v: MValue, r: Seq<char>)
    requires
        concrete_refs(v).contains(r),
    ensures
        is_concrete_reference(r),
{
    let g = |x: Seq<char>| if is_concrete_reference(x) {
        seq![x]
    } else {
        seq![]
    };
    crate::identity::lemma_distinct_contains(value_strings(v).flat_map(g));
    crate::order::lemma_flat_map_member(value_strings(v), g, r);
}

proof fn lemma_snapshot_reciprocity_shaped(s: Seq<SnapshotView>, v: SnapshotView)
    ensures
        forall|d: DiagView| snapshot_reciprocity(s, v).contains(d) ==> reciprocity_shaped(d),
{
    lemma_reciprocal_fields_tick_free();
    let outer = |f: Seq<char>| field_reciprocity(s, v, f);
    assert forall|d: DiagView| snapshot_reciprocity(s, v).contains(d) implies reciprocity_shaped(d) by {
        crate::order::lemma_flat_map_member(reciprocal_fields(), outer, d);
        let i = choose|i: int|
            0 <= i < reciprocal_fields().len() && #[trigger] outer(reciprocal_fields()[i]).contains(d);
        let f = reciprocal_fields()[i];
        let source = v.id->0;
        let val = meta_get(v.metadata, f)->0;
        let inner = |r: Seq<char>| reciprocal_one(s, v, source, f, r);
        crate::order::lemma_flat_map_member(concrete_refs(val), inner, d);
        let j = choose|j: int| 0 <= j < concrete_refs(val).len() && #[trigger] inner(concrete_refs(val)[j]).contains(d);
        let r = concrete_refs(val)[j];
        lemma_concrete_refs_concrete(val, r);
        lemma_reference_tick_free(r);
        assert(d == non_reciprocal(v.path, f, r, source));
    }
}

proof fn lemma_non_reciprocal_message_parts(
    f1: Seq<char>,
    r1: Seq<char>,
    x1: Seq<char>,
    y1: Seq<char>,
    f2: Seq<char>,
    r2: Seq<char>,
    x2: Seq<char>,
    y2: Seq<char>,
)
    requires
        tick_free(f1),
        tick_free(f2),
        tick_free(r1),
        tick_free(r2),
        "relationship `"@ + f1 + "` to `"@ + r1 + "` is not reciprocal; target must contain `"@ + x1 + y1
            == "relationship `"@ + f2 + "` to `"@ + r2 + "` is not reciprocal; target must contain `"@ + x2
            + y2,
        y1.len() > 0 && y1[0] == '`',
        y2.len() > 0 && y2[0] == '`',
    ensures
        f1 == f2,
        r1 == r2,
        y1 == y2 ==> x1 == x2,
{
    reveal_strlit("relationship `");
    reveal_strlit("` to `");
    reveal_strlit("` is not reciprocal; target must contain `");
    reveal_strlit("relationship ");
    reveal_strlit(" to ");
    reveal_strlit(" is not reciprocal; target must contain ");
    let head = "relationship "@ + tick();
    let to = " to "@ + tick();
    let must = " is not reciprocal; target must contain "@ + tick();
    assert(y1 =~= tick() + y1.skip(1));
    assert(y2 =~= tick() + y2.skip(1));
    let t1 = f1 + tick() + (to + (r1 + tick() + (must + (x1 + tick() + y1.skip(1)))));
    let t2 = f2 + tick() + (to + (r2 + tick() + (must + (x2 + tick() + y2.skip(1)))));
    assert("relationship `"@ + f1 + "` to `"@ + r1 + "` is not reciprocal; target must contain `"@ + x1 + y1
        =~= head + t1);
    assert("relationship `"@ + f2 + "` to `"@ + r2 + "` is not reciprocal; target must contain `"@ + x2 + y2
        =~= head + t2);
    lemma_cancel_prefix(head, t1, t2);
    lemma_tick_split(
        f1,
        to + (r1 + tick() + (must + (x1 + tick() + y1.skip(1)))),
        f2,
        to + (r2 + tick() + (must + (x2 + tick() + y2.skip(1)))),
    );
    lemma_cancel_prefix(
        to,
        r1 + tick() + (must + (x1 + tick() + y1.skip(1))),
        r2 + tick() + (must + (x2 + tick() + y2.skip(1))),
    );
    lemma_tick_split(r1, must + (x1 + tick() + y1.skip(1)), r2, must + (x2 + tick() + y2.skip(1)));
    lemma_cancel_prefix(must, x1 + tick() + y1.skip(1), x2 + tick() + y2.skip(1));
    if y1 == y2 {
        assert(x1 + tick() + y1.skip(1) =~= x1 + y1);
        assert(x2 + tick() + y2.skip(1) =~= x2 + y2);
        lemma_cancel_suffix(x1, x2, y1);
    }
}

proof fn lemma_reciprocity_shaped_unique(a: DiagView, b: DiagView)
    requires
        reciprocity_shaped(a),
        reciprocity_shaped(b),
        a.path == b.path,
        a.message == b.message,
    ensures
        a == b,
{
    reveal_strlit("` in its reverse `");
    let (f1, r1, x1) = choose|f: Seq<char>, r: Seq<char>, src: Seq<char>|
        tick_free(f) && tick_free(r) && a == #[trigger] non_reciprocal(a.path, f, r, src);
    let (f2, r2, x2) = choose|f: Seq<char>, r: Seq<char>, src: Seq<char>|
        tick_free(f) && tick_free(r) && b == #[trigger] non_reciprocal(b.path, f, r, src);
    let y1 = "` in its reverse `"@ + reverse_field(f1) + "` field"@;
    let y2 = "` in its reverse `"@ + reverse_field(f2) + "` field"@;
    let p = "relationship `"@;
    let q = "` to `"@;
    let w = "` is not reciprocal; target must contain `"@;
    assert(a.message =~= p + f1 + q + r1 + w + x1 + y1);
    assert(b.message =~= p + f2 + q + r2 + w + x2 + y2);
    assert(y1[0] == '`');
    assert(y2[0] == '`');
    lemma_non_reciprocal_message_parts(f1, r1, x1, y1, f2, r2, x2, y2);
}

proof fn lemma_reciprocity_no_ties(s: Seq<SnapshotView>)
    ensures
        crate::order::no_ties::<Diagnostic, PathMessageOrder>(
            s.flat_map(|v: SnapshotView| snapshot_reciprocity(s, v)),
        ),
{
    let g = |v: SnapshotView| snapshot_reciprocity(s, v);
    let all = s.flat_map(g);
    assert forall|a: DiagView, b: DiagView|
        all.contains(a) && all.contains(b) && !path_message_lt(a, b) && !path_message_lt(b, a) implies a == b by {
        crate::order::lemma_flat_map_member(s, g, a);
        crate::order::lemma_flat_map_member(s, g, b);
        let i = choose|i: int| 0 <= i < s.len() && #[trigger] g(s[i]).contains(a);
        let j = choose|j: int| 0 <= j < s.len() && #[trigger] g(s[j]).contains(b);
        lemma_snapshot_reciprocity_shaped(s, s[i]);
        lemma_snapshot_reciprocity_shaped(s, s[j]);
        lemma_lex_lt_facts(a.path, b.path, a.path);
        lemma_lex_lt_facts(a.message, b.message, a.message);
        lemma_reciprocity_shaped_unique(a, b);
    }
}

proof fn lemma_reciprocity_per_snapshot(s1: Seq<SnapshotView>, s2: Seq<SnapshotView>)
    requires
        s1.to_multiset() == s2.to_multiset(),
    ensures
        forall|v: SnapshotView| #[trigger] snapshot_reciprocity(s1, v) == snapshot_reciprocity(s2, v),
{
    crate::order::lemma_permutation_contains(s1, s2);
    assert forall|r: Seq<char>| has_target(s1, r) == has_target(s2, r) by {
        if has_target(s1, r) {
            let i = choose|i: int| 0 <= i < s1.len() && (#[trigger] s1[i]).id == Some(r);
            assert(s1.contains(s1[i]));
        }
        if has_target(s2, r) {
            let i = choose|i: int| 0 <= i < s2.len() && (#[trigger] s2[i]).id == Some(r);
            assert(s2.contains(s2[i]));
        }
    }
    assert forall|r: Seq<char>, k: ArtifactKind| target_has_kind(s1, r, k) == target_has_kind(s2, r, k) by {
        if target_has_kind(s1, r, k) {
            let i = choose|i: int| 0 <= i < s1.len() && (#[trigger] s1[i]).id == Some(r) && s1[i].kind == k;
            assert(s1.contains(s1[i]));
        }
        if target_has_kind(s2, r, k) {
            let i = choose|i: int| 0 <= i < s2.len() && (#[trigger] s2[i]).id == Some(r) && s2[i].kind == k;
            assert(s2.contains(s2[i]));
        }
    }
    assert forall|r: Seq<char>, f: Seq<char>, x: Seq<char>| member(s1, r, f, x) == member(s2, r, f, x) by {
        if member(s1, r, f, x) {
            let i = choose|i: int| 0 <= i < s1.len() && (#[trigger] s1[i]).id == Some(r) && match meta_get(s1[i].metadata, f) {
                Some(val) => reciprocal_shape(f, val) && value_strings(val).contains(x) && is_concrete_reference(x),
                None => false,
            };
            assert(s1.contains(s1[i]));
            let j = choose|j: int| 0 <= j < s2.len() && s2[j] == s1[i];
            assert(s2[j].id == Some(r));
        }
        if member(s2, r, f, x) {
            let i = choose|i: int| 0 <= i < s2.len() && (#[trigger] s2[i]).id == Some(r) && match meta_get(s2[i].metadata, f) {
                Some(val) => reciprocal_shape(f, val) && value_strings(val).contains(x) && is_concrete_reference(x),
                None => false,
            };
            assert(s2.contains(s2[i]));
            let j = choose|j: int| 0 <= j < s1.len() && s1[j] == s2[i];
            assert(s1[j].id == Some(r));
        }
    }
    assert forall|v: SnapshotView| #[trigger] snapshot_reciprocity(s1, v) == snapshot_reciprocity(s2, v) by {
        assert forall|f: Seq<char>| #[trigger] field_reciprocity(s1, v, f) == field_reciprocity(s2, v, f) by {
            match v.id {
                Some(source) => {
                    assert forall|r: Seq<char>| #[trigger] reciprocal_one(s1, v, source, f, r) == reciprocal_one(s2, v, source, f, r) by {}
                    assert((|r: Seq<char>| reciprocal_one(s1, v, source, f, r)) =~= (|r: Seq<char>| reciprocal_one(s2, v, source, f, r)));
                },
                None => {},
            }
        }
        assert((|f: Seq<char>| field_reciprocity(s1, v, f)) =~= (|f: Seq<char>| field_reciprocity(s2, v, f)));
    }
}

/// The reciprocity findings of a repository do not depend on the order in
/// which its snapshots come: permutations of one another give the same
/// findings in the same order.
pub proof fn lemma_reciprocal_findings_order_independent(
    s1: Seq<SnapshotView>,
    s2: Seq<SnapshotView>,
)
    requires
        s1.to_multiset() == s2.to_multiset(),
    ensures
        reciprocal_findings(s1) == reciprocal_findings(s2),
{
    lemma_reciprocity_per_snapshot(s1, s2);
    let g = |v: SnapshotView| snapshot_reciprocity(s1, v);
    assert(g =~= (|v: SnapshotView| snapshot_reciprocity(s2, v)));
    crate::order::lemma_flat_map_permutation(s1, s2, g);
    lemma_reciprocity_no_ties(s1);
    crate::order::lemma_sorted_by_order_independent::<Diagnostic, PathMessageOrder>(
        s1.flat_map(g),
        s2.flat_map(g),
    );
}

/// Every reciprocity finding of a repository is an error of the
/// reciprocity rule on the path of a snapshot that has an identifier, and
/// the findings come sorted by path and message.
pub proof fn lemma_reciprocal_findings_shape(s: Seq<SnapshotView>)
    ensures
        crate::order::is_sorted::<Diagnostic, PathMessageOrder>(reciprocal_findings(s)),
        forall|d: DiagView|
            #[trigger] reciprocal_findings(s).contains(d) ==> {
                &&& d.rule == "ARTIFACT.RELATIONSHIP.NON_RECIPROCAL"@
                &&& d.severity == Severity::Error
                &&& exists|i: int| 0 <= i < s.len() && (#[trigger] s[i]).path == d.path && s[i].id is Some
            },
{
    broadcast use vstd::seq_lib::group_to_multiset_ensures;

    let g = |v: SnapshotView| snapshot_reciprocity(s, v);
    let all = s.flat_map(g);
    crate::order::lemma_sorted_by_sorted::<Diagnostic, PathMessageOrder>(all);
    crate::order::lemma_sorted_by_permutation::<Diagnostic, PathMessageOrder>(all);
    assert forall|d: DiagView| #[trigger] reciprocal_findings(s).contains(d) implies {
        &&& d.rule == "ARTIFACT.RELATIONSHIP.NON_RECIPROCAL"@
        &&& d.severity == Severity::Error
        &&& exists|i: int| 0 <= i < s.len() && (#[trigger] s[i]).path == d.path && s[i].id is Some
    } by {
        assert(reciprocal_findings(s).to_multiset().count(d) > 0);
        assert(all.contains(d));
        crate::order::lemma_flat_map_member(s, g, d);
        let i = choose|i: int| 0 <= i < s.len() && #[trigger] g(s[i]).contains(d);
        let v = s[i];
        let outer = |f: Seq<char>| field_reciprocity(s, v, f);
        crate::order::lemma_flat_map_member(reciprocal_fields(), outer, d);
        let j = choose|j: int|
            0 <= j < reciprocal_fields().len() && #[trigger] outer(reciprocal_fields()[j]).contains(d);
        let f = reciprocal_fields()[j];
        let source = v.id->0;
        let val = meta_get(v.metadata, f)->0;
        let inner = |r: Seq<char>| reciprocal_one(s, v, source, f, r);
        crate::order::lemma_flat_map_member(concrete_refs(val), inner, d);
        let k = choose|k: int| 0 <= k < concrete_refs(val).len() && #[trigger] inner(concrete_refs(val)[k]).contains(d);
        let r = concrete_refs(val)[k];
        assert(d == non_reciprocal(v.path, f, r, source));
        assert(s[i].path == d.path && s[i].id is Some);
    }
}

// ---------------------------------------------------------------------------
// A related link is checked whatever the target's kind
// ---------------------------------------------------------------------------
/// Every reciprocity finding comes from one link that its target does not
/// return.
proof fn lemma_reciprocal_finding_origin(s: Seq<SnapshotView>, d: DiagView)
    requires
        reciprocal_findings(s).contains(d),
    ensures
        exists|i: int, f: Seq<char>, r: Seq<char>|
            0 <= i < s.len() && s[i].id is Some && reciprocal_fields().contains(f) && is_concrete_reference(r)
                && !member(s, r, reverse_field(f), s[i].id->0) && d == #[trigger] non_reciprocal(
                s[i].path,
                f,
                r,
                s[i].id->0,
            ),
{
    broadcast use vstd::seq_lib::group_to_multiset_ensures;

    let g = |v: SnapshotView| snapshot_reciprocity(s, v);
    let all = s.flat_map(g);
    crate::order::lemma_sorted_by_permutation::<Diagnostic, PathMessageOrder>(all);
    assert(reciprocal_findings(s).to_multiset().count(d) > 0);
    assert(all.contains(d));
    crate::order::lemma_flat_map_member(s, g, d);
    let i = choose|i: int| 0 <= i < s.len() && #[trigger] g(s[i]).contains(d);
    let v = s[i];
    let outer = |f: Seq<char>| field_reciprocity(s, v, f);
    crate::order::lemma_flat_map_member(reciprocal_fields(), outer, d);
    let j = choose|j: int|
        0 <= j < reciprocal_fields().len() && #[trigger] outer(reciprocal_fields()[j]).contains(d);
    let f = reciprocal_fields()[j];
    assert(reciprocal_fields().contains(f));
    let source = v.id->0;
    let val = meta_get(v.metadata, f)->0;
    let inner = |r: Seq<char>| reciprocal_one(s, v, source, f, r);
    crate::order::lemma_flat_map_member(concrete_refs(val), inner, d);
    let k = choose|k: int| 0 <= k < concrete_refs(val).len() && #[trigger] inner(concrete_refs(val)[k]).contains(d);
    let r = concrete_refs(val)[k];
    lemma_concrete_refs_concrete(val, r);
    assert(d == non_reciprocal(v.path, f, r, source));
    assert(!member(s, r, reverse_field(f), source));
}

/// A `related` link, held in a sequence, from an identified artifact to a
/// concrete reference that names a recognized artifact of any kind is
/// reported as not reciprocal exactly when no artifact with that identifier
/// lists the source in a `related` sequence.
pub proof fn lemma_related_link_checked(s: Seq<SnapshotView>, i: int, xs: Seq<Seq<char>>, r: Seq<char>, t: int)
    requires
        0 <= i < s.len(),
        s[i].id is Some,
        meta_get(s[i].metadata, "related"@) == Some(MValue::Sequence(xs)),
        xs.contains(r),
        is_concrete_reference(r),
        0 <= t < s.len(),
        s[t].id == Some(r),
    ensures
        reciprocal_findings(s).contains(non_reciprocal(s[i].path, "related"@, r, s[i].id->0)) <==> !exists|
            j: int,
        |
            0 <= j < s.len() && (#[trigger] s[j]).id == Some(r) && (meta_get(s[j].metadata, "related"@) matches Some(
                MValue::Sequence(ys),
            ) && ys.contains(s[i].id->0)) && is_concrete_reference(s[i].id->0),
{
    let v = s[i];
    let source = v.id->0;
    let f = "related"@;
    let d = non_reciprocal(v.path, f, r, source);
    let listed = exists|j: int|
        0 <= j < s.len() && (#[trigger] s[j]).id == Some(r) && (meta_get(s[j].metadata, "related"@) matches Some(
            MValue::Sequence(ys),
        ) && ys.contains(source)) && is_concrete_reference(source);
    assert(reverse_field(f) == f);
    assert(member(s, r, f, source) == listed) by {
        if member(s, r, f, source) {
            let j = choose|j: int|
                0 <= j < s.len() && (#[trigger] s[j]).id == Some(r) && match meta_get(s[j].metadata, f) {
                    Some(val) => reciprocal_shape(f, val) && value_strings(val).contains(source)
                        && is_concrete_reference(source),
                    None => false,
                };
            assert(s[j].id == Some(r));
        }
        if listed {
            let j = choose|j: int|
                0 <= j < s.len() && (#[trigger] s[j]).id == Some(r) && (meta_get(s[j].metadata, "related"@) matches Some(
                    MValue::Sequence(ys),
                ) && ys.contains(source)) && is_concrete_reference(source);
            assert(s[j].id == Some(r));
        }
    }
    if !listed {
        assert(has_target(s, r));
        assert(expected_target(v.kind, f) is None);
        assert(reciprocal_one(s, v, source, f, r) == seq![d]);
        assert(reciprocal_one(s, v, source, f, r).contains(d)) by {
            assert(reciprocal_one(s, v, source, f, r)[0] == d);
        }
        let val = MValue::Sequence(xs);
        let filt = |q: Seq<char>| if is_concrete_reference(q) {
            seq![q]
        } else {
            seq![]
        };
        assert(filt(r).contains(r)) by {
            assert(filt(r)[0] == r);
        }
        assert(value_strings(val) == xs);
        crate::order::lemma_flat_map_has(value_strings(val), filt, r, r);
        crate::identity::lemma_distinct_contains(value_strings(val).flat_map(filt));
        assert(concrete_refs(val).contains(r));
        let inner = |q: Seq<char>| reciprocal_one(s, v, source, f, q);
        crate::order::lemma_flat_map_has(concrete_refs(val), inner, r, d);
        assert(field_reciprocity(s, v, f).contains(d));
        let outer = |q: Seq<char>| field_reciprocity(s, v, q);
        assert(reciprocal_fields()[0] == f);
        assert(reciprocal_fields().contains(f));
        crate::order::lemma_flat_map_has(reciprocal_fields(), outer, f, d);
        let g = |w: SnapshotView| snapshot_reciprocity(s, w);
        assert(s.contains(v));
        crate::order::lemma_flat_map_has(s, g, v, d);
        crate::order::lemma_sorted_by_contains::<Diagnostic, PathMessageOrder>(s.flat_map(g), d);
    } else if reciprocal_findings(s).contains(d) {
        lemma_reciprocal_finding_origin(s, d);
        let (i2, f2, r2) = choose|i2: int, f2: Seq<char>, r2: Seq<char>|
            0 <= i2 < s.len() && s[i2].id is Some && reciprocal_fields().contains(f2)
                && is_concrete_reference(r2) && !member(s, r2, reverse_field(f2), s[i2].id->0) && d
                == #[trigger] non_reciprocal(s[i2].path, f2, r2, s[i2].id->0);
        let x2 = s[i2].id->0;
        lemma_reciprocal_fields_tick_free();
        let q = choose|q: int| 0 <= q < reciprocal_fields().len() && reciprocal_fields()[q] == f2;
        assert(tick_free(f2));
        assert(tick_free(f)) by {
            assert(reciprocal_fields()[0] == f);
        }
        lemma_reference_tick_free(r);
        lemma_reference_tick_free(r2);
        reveal_strlit("` in its reverse `");
        let y1 = "` in its reverse `"@ + reverse_field(f2) + "` field"@;
        let y2 = "` in its reverse `"@ + reverse_field(f) + "` field"@;
        let p = "relationship `"@;
        let qq = "` to `"@;
        let w = "` is not reciprocal; target must contain `"@;
        assert(d.message =~= p + f2 + qq + r2 + w + x2 + y1);
        assert(d.message =~= p + f + qq + r + w + source + y2);
        assert(y1[0] == '`');
        assert(y2[0] == '`');
        lemma_non_reciprocal_message_parts(f2, r2, x2, y1, f, r, source, y2);
        assert(f2 == f && r2 == r);
        assert(y1 == y2);
        assert(x2 == source);
        assert(false);
    }
}

proof fn lemma_reciprocal_field_names()
    ensures
        "related"@ != "supersedes"@,
        "related"@ != "superseded_by"@,
        "supersedes"@ != "superseded_by"@,
{
    reveal_strlit("related");
    reveal_strlit("supersedes");
    reveal_strlit("superseded_by");
    assert("related"@[0] != "supersedes"@[0]);
    assert("related"@[0] != "superseded_by"@[0]);
    assert("supersedes"@.len() != "superseded_by"@.len());
}

/// A `supersedes` (or `superseded_by`) scalar of an identified artifact that
/// names, by a concrete reference, an artifact of its own kind is reported
/// as not reciprocal exactly when no artifact with that identifier holds the
/// source as its `superseded_by` (or `supersedes`) scalar.
pub proof fn lemma_supersession_link_checked(s: Seq<SnapshotView>, i: int, f: Seq<char>, r: Seq<char>, t: int)
    requires
        0 <= i < s.len(),
        s[i].id is Some,
        f == "supersedes"@ || f == "superseded_by"@,
        meta_get(s[i].metadata, f) == Some(MValue::Scalar(r)),
        is_concrete_reference(r),
        0 <= t < s.len(),
        s[t].id == Some(r),
        s[t].kind == s[i].kind,
    ensures
        reciprocal_findings(s).contains(non_reciprocal(s[i].path, f, r, s[i].id->0)) <==> !exists|j: int|
            0 <= j < s.len() && (#[trigger] s[j]).id == Some(r) && meta_get(
                s[j].metadata,
                if f == "supersedes"@ {
                    "superseded_by"@
                } else {
                    "supersedes"@
                },
            ) == Some(MValue::Scalar(s[i].id->0)) && is_concrete_reference(s[i].id->0),
{
    lemma_reciprocal_field_names();
    let v = s[i];
    let source = v.id->0;
    let rf = if f == "supersedes"@ {
        "superseded_by"@
    } else {
        "supersedes"@
    };
    assert(reverse_field(f) == rf);
    let d = non_reciprocal(v.path, f, r, source);
    let listed = exists|j: int|
        0 <= j < s.len() && (#[trigger] s[j]).id == Some(r) && meta_get(s[j].metadata, rf) == Some(
            MValue::Scalar(source),
        ) && is_concrete_reference(source);
    assert(member(s, r, rf, source) == listed) by {
        if member(s, r, rf, source) {
            let j = choose|j: int|
                0 <= j < s.len() && (#[trigger] s[j]).id == Some(r) && match meta_get(s[j].metadata, rf) {
                    Some(val) => reciprocal_shape(rf, val) && value_strings(val).contains(source)
                        && is_concrete_reference(source),
                    None => false,
                };
            let val = meta_get(s[j].metadata, rf)->0;
            assert(val is Scalar);
            assert(value_strings(val) == seq![val->Scalar_0]);
            assert(val == MValue::Scalar(source));
            assert(s[j].id == Some(r));
        }
        if listed {
            let j = choose|j: int|
                0 <= j < s.len() && (#[trigger] s[j]).id == Some(r) && meta_get(s[j].metadata, rf) == Some(
                    MValue::Scalar(source),
                ) && is_concrete_reference(source);
            assert(value_strings(MValue::Scalar(source))[0] == source);
            assert(s[j].id == Some(r));
        }
    }
    if !listed {
        assert(has_target(s, r));
        assert(target_has_kind(s, r, v.kind));
        assert(expected_target(v.kind, f) == Some(v.kind));
        assert(reciprocal_one(s, v, source, f, r) == seq![d]);
        assert(reciprocal_one(s, v, source, f, r).contains(d)) by {
            assert(reciprocal_one(s, v, source, f, r)[0] == d);
        }
        let val = MValue::Scalar(r);
        let filt = |q: Seq<char>| if is_concrete_reference(q) {
            seq![q]
        } else {
            seq![]
        };
        assert(filt(r).contains(r)) by {
            assert(filt(r)[0] == r);
        }
        assert(value_strings(val)[0] == r);
        assert(value_strings(val).contains(r));
        crate::order::lemma_flat_map_has(value_strings(val), filt, r, r);
        crate::identity::lemma_distinct_contains(value_strings(val).flat_map(filt));
        assert(concrete_refs(val).contains(r));
        let inner = |q: Seq<char>| reciprocal_one(s, v, source, f, q);
        crate::order::lemma_flat_map_has(concrete_refs(val), inner, r, d);
        assert(reciprocal_shape(f, val));
        assert(field_reciprocity(s, v, f).contains(d));
        let outer = |q: Seq<char>| field_reciprocity(s, v, q);
        assert(reciprocal_fields()[1] == "supersedes"@ && reciprocal_fields()[2] == "superseded_by"@);
        assert(reciprocal_fields().contains(f));
        crate::order::lemma_flat_map_has(reciprocal_fields(), outer, f, d);
        let g = |w: SnapshotView| snapshot_reciprocity(s, w);
        assert(s.contains(v));
        crate::order::lemma_flat_map_has(s, g, v, d);
        crate::order::lemma_sorted_by_contains::<Diagnostic, PathMessageOrder>(s.flat_map(g), d);
    } else if reciprocal_findings(s).contains(d) {
        lemma_reciprocal_finding_origin(s, d);
        let (i2, f2, r2) = choose|i2: int, f2: Seq<char>, r2: Seq<char>|
            0 <= i2 < s.len() && s[i2].id is Some && reciprocal_fields().contains(f2)
                && is_concrete_reference(r2) && !member(s, r2, reverse_field(f2), s[i2].id->0) && d
                == #[trigger] non_reciprocal(s[i2].path, f2, r2, s[i2].id->0);
        let x2 = s[i2].id->0;
        lemma_reciprocal_fields_tick_free();
        let q = choose|q: int| 0 <= q < reciprocal_fields().len() && reciprocal_fields()[q] == f2;
        assert(tick_free(f2));
        assert(tick_free(f)) by {
            assert(reciprocal_fields()[1] == "supersedes"@ && reciprocal_fields()[2] == "superseded_by"@);
        }
        lemma_reference_tick_free(r);
        lemma_reference_tick_free(r2);
        reveal_strlit("` in its reverse `");
        let y1 = "` in its reverse `"@ + reverse_field(f2) + "` field"@;
        let y2 = "` in its reverse `"@ + reverse_field(f) + "` field"@;
        let p = "relationship `"@;
        let qq = "` to `"@;
        let w = "` is not reciprocal; target must contain `"@;
        assert(d.message =~= p + f2 + qq + r2 + w + x2 + y1);
        assert(d.message =~= p + f + qq + r + w + source + y2);
        assert(y1[0] == '`');
        assert(y2[0] == '`');
        lemma_non_reciprocal_message_parts(f2, r2, x2, y1, f, r, source, y2);
        assert(f2 == f && r2 == r);
        assert(y1 == y2);
        assert(x2 == source);
        assert(false);
    }
}

// ---------------------------------------------------------------------------
// The reciprocity findings are exactly those of the unreturned links
// ---------------------------------------------------------------------------
/// The field that must return a link of `f`: `related` for `related`,
/// `superseded_by` for `supersedes` and `supersedes` for `superseded_by`.
pub open spec fn returning_field(f: Seq<char>) -> Seq<char> {
    if f == "supersedes"@ {
        "superseded_by"@
    } else if f == "superseded_by"@ {
        "supersedes"@
    } else {
        "related"@
    }
}

/// Some artifact with identifier `r` holds the concrete reference `x` in
/// field `g`: in a sequence for `related`, as the scalar otherwise.
pub open spec fn returned_by(s: Seq<SnapshotView>, r: Seq<char>, g: Seq<char>, x: Seq<char>) -> bool {
    &&& is_concrete_reference(x)
    &&& exists|j: int|
        0 <= j < s.len() && (#[trigger] s[j]).id == Some(r) && if g == "related"@ {
            (meta_get(s[j].metadata, g) matches Some(MValue::Sequence(ys)) && ys.contains(x))
        } else {
            meta_get(s[j].metadata, g) == Some(MValue::Scalar(x))
        }
}

/// `d` is the finding of link `r` in field `f` of artifact `i`: the link is
/// a concrete reference in a `related` sequence, or a `supersedes` or
/// `superseded_by` scalar, of an identified artifact; it names a recognized
/// artifact (of the source's own kind for the supersession fields); and no
/// artifact with that identifier returns it.
pub open spec fn link_finding(s: Seq<SnapshotView>, i: int, f: Seq<char>, r: Seq<char>, d: DiagView) -> bool {
    &&& 0 <= i < s.len()
    &&& s[i].id is Some
    &&& {
        ||| f == "related"@ && (meta_get(s[i].metadata, f) matches Some(MValue::Sequence(xs)) && xs.contains(r))
        ||| (f == "supersedes"@ || f == "superseded_by"@) && meta_get(s[i].metadata, f) == Some(MValue::Scalar(r))
    }
    &&& is_concrete_reference(r)
    &&& exists|t: int| 0 <= t < s.len() && (#[trigger] s[t]).id == Some(r) && (f == "related"@ || s[t].kind == s[i].kind)
    &&& !returned_by(s, r, returning_field(f), s[i].id->0)
    &&& d == non_reciprocal(s[i].path, f, r, s[i].id->0)
}

proof fn lemma_returned_is_member(s: Seq<SnapshotView>, r: Seq<char>, f: Seq<char>, x: Seq<char>)
    requires
        f == "related"@ || f == "supersedes"@ || f == "superseded_by"@,
    ensures
        reverse_field(f) == returning_field(f),
        member(s, r, reverse_field(f), x) == returned_by(s, r, returning_field(f), x),
{
    lemma_reciprocal_field_names();
    let g = returning_field(f);
    if member(s, r, g, x) {
        let j = choose|j: int|
            0 <= j < s.len() && (#[trigger] s[j]).id == Some(r) && match meta_get(s[j].metadata, g) {
                Some(val) => reciprocal_shape(g, val) && value_strings(val).contains(x)
                    && is_concrete_reference(x),
                None => false,
            };
        let val = meta_get(s[j].metadata, g)->0;
        if g != "related"@ {
            assert(value_strings(val) == seq![val->Scalar_0]);
            assert(val == MValue::Scalar(x));
        }
        assert(s[j].id == Some(r));
    }
    if returned_by(s, r, g, x) {
        let j = choose|j: int|
            0 <= j < s.len() && (#[trigger] s[j]).id == Some(r) && if g == "related"@ {
                (meta_get(s[j].metadata, g) matches Some(MValue::Sequence(ys)) && ys.contains(x))
            } else {
                meta_get(s[j].metadata, g) == Some(MValue::Scalar(x))
            };
        if g != "related"@ {
            assert(value_strings(MValue::Scalar(x))[0] == x);
        }
        assert(s[j].id == Some(r));
    }
}

/// The reciprocity findings of a repository are exactly the findings of its
/// links that their targets do not return.
pub proof fn lemma_reciprocal_findings_exact(s: Seq<SnapshotView>, d: DiagView)
    ensures
        reciprocal_findings(s).contains(d) <==> exists|i: int, f: Seq<char>, r: Seq<char>|
            #[trigger] link_finding(s, i, f, r, d),
{
    broadcast use vstd::seq_lib::group_to_multiset_ensures;

    lemma_reciprocal_field_names();
    if exists|i: int, f: Seq<char>, r: Seq<char>| #[trigger] link_finding(s, i, f, r, d) {
        let (i, f, r) = choose|i: int, f: Seq<char>, r: Seq<char>| #[trigger] link_finding(s, i, f, r, d);
        lemma_returned_is_member(s, r, f, s[i].id->0);
        let t = choose|t: int| 0 <= t < s.len() && (#[trigger] s[t]).id == Some(r) && (f == "related"@ || s[t].kind == s[i].kind);
        if f == "related"@ {
            let xs = meta_get(s[i].metadata, f)->0->Sequence_0;
            lemma_related_link_checked(s, i, xs, r, t);
        } else {
            lemma_supersession_link_checked(s, i, f, r, t);
        }
    }
    if reciprocal_findings(s).contains(d) {
        let g = |v: SnapshotView| snapshot_reciprocity(s, v);
        let all = s.flat_map(g);
        crate::order::lemma_sorted_by_permutation::<Diagnostic, PathMessageOrder>(all);
        assert(reciprocal_findings(s).to_multiset().count(d) > 0);
        assert(all.contains(d));
        crate::order::lemma_flat_map_member(s, g, d);
        let i = choose|i: int| 0 <= i < s.len() && #[trigger] g(s[i]).contains(d);
        let v = s[i];
        let outer = |f: Seq<char>| field_reciprocity(s, v, f);
        crate::order::lemma_flat_map_member(reciprocal_fields(), outer, d);
        let j = choose|j: int|
            0 <= j < reciprocal_fields().len() && #[trigger] outer(reciprocal_fields()[j]).contains(d);
        let f = reciprocal_fields()[j];
        assert(f == "related"@ || f == "supersedes"@ || f == "superseded_by"@);
        let source = v.id->0;
        let val = meta_get(v.metadata, f)->0;
        let inner = |r: Seq<char>| reciprocal_one(s, v, source, f, r);
        crate::order::lemma_flat_map_member(concrete_refs(val), inner, d);
        let k = choose|k: int| 0 <= k < concrete_refs(val).len() && #[trigger] inner(concrete_refs(val)[k]).contains(d);
        let r = concrete_refs(val)[k];
        lemma_concrete_refs_concrete(val, r);
        let filt = |q: Seq<char>| if is_concrete_reference(q) {
            seq![q]
        } else {
            seq![]
        };
        crate::identity::lemma_distinct_contains(value_strings(val).flat_map(filt));
        assert(concrete_refs(val).contains(r));
        crate::order::lemma_flat_map_member(value_strings(val), filt, r);
        let m = choose|m: int| 0 <= m < value_strings(val).len() && #[trigger] filt(value_strings(val)[m]).contains(r);
        assert(value_strings(val)[m] == r);
        assert(value_strings(val).contains(r));
        lemma_returned_is_member(s, r, f, source);
        assert(d == non_reciprocal(v.path, f, r, source));
        assert(has_target(s, r));
        if f == "related"@ {
            let t = choose|t: int| 0 <= t < s.len() && (#[trigger] s[t]).id == Some(r);
            assert(s[t].id == Some(r) && (f == "related"@ || s[t].kind == s[i].kind));
        } else {
            assert(val is Scalar);
            assert(value_strings(val) == seq![val->Scalar_0]);
            assert(val == MValue::Scalar(r));
            assert(target_has_kind(s, r, v.kind));
            let t = choose|t: int| 0 <= t < s.len() && (#[trigger] s[t]).id == Some(r) && s[t].kind == v.kind;
            assert(s[t].id == Some(r) && (f == "related"@ || s[t].kind == s[i].kind));
        }
        assert(link_finding(s, i, f, r, d));
    }
}

} // verus!
