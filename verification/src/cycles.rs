//! Relationship cycles: every elementary cycle of the parent, dependency and
//! supersession graphs, reported on each relationship entry that forms it.
//!
//! The graph of a family has one edge per eligible relationship entry. An
//! elementary cycle is a closed walk through distinct artifacts; it is
//! written from its smallest artifact (in text order), which makes each
//! cycle, and each rotation of it, appear once.
use crate::artifact::{meta_get, ArtifactKind, ArtifactPath, ArtifactSnapshot, MValue, SnapshotView};
use crate::copy::{view_seq, Duplicate};
use crate::diagnostic::{diag_view, lemma_lex_lt_facts, DiagView, Diagnostic, Severity};
use crate::identity::join;
use crate::order::{
    is_sorted, lemma_sorted_by_permutation, lemma_sorted_by_sorted, sort_stable, sorted_by,
};
use crate::reciprocal::{path_message_lt, PathMessageOrder};
use crate::relationships::{
    has_target, has_target_of, policy_of, relationship_policy, target_has_kind,
    target_has_kind_of, RelationshipPolicy,
};
use crate::rules::{
    concrete_reference, is_concrete_reference, lemma_reference_tick_free, value_strings, value_texts,
};
use crate::text::{
    cat, lemma_cancel_prefix, lemma_cancel_suffix, lemma_tick_free_concat, lemma_tick_split, lex_lt,
    owned, text_eq, tick, tick_free,
};
use vstd::prelude::*;
use vstd::seq_lib::lemma_multiset_commutative;

verus! {

broadcast use vstd::string::group_string_axioms;

/// The relationship graphs that are searched for cycles.
#[derive(Clone, Copy, Debug, PartialEq, Eq, Structural)]
pub enum CycleFamily {
    /// `parent` links.
    Parent,
    /// `depends_on`, `requires` and `blockers` links.
    Dependency,
    /// `supersedes` and `superseded_by` links, both read as "supersedes".
    Supersession,
}

/// The fields of a family.
pub open spec fn family_fields(f: CycleFamily) -> Seq<Seq<char>> {
    match f {
        CycleFamily::Parent => seq!["parent"@],
        CycleFamily::Dependency => seq!["depends_on"@, "requires"@, "blockers"@],
        CycleFamily::Supersession => seq!["supersedes"@, "superseded_by"@],
    }
}

/// The name of a family in findings.
pub open spec fn family_label(f: CycleFamily) -> Seq<char> {
    match f {
        CycleFamily::Parent => "parent"@,
        CycleFamily::Dependency => "dependency"@,
        CycleFamily::Supersession => "supersession"@,
    }
}

/// Dependency fields hold sequences; the others a scalar.
pub open spec fn cycle_shape(field: Seq<char>, v: MValue) -> bool {
    if field == "depends_on"@ || field == "requires"@ || field == "blockers"@ {
        v is Sequence
    } else if field == "parent"@ || field == "supersedes"@ || field == "superseded_by"@ {
        v is Scalar
    } else {
        false
    }
}

/// An edge of a relationship graph, with the entry it comes from.
pub struct EdgeView {
    pub source: Seq<char>,
    pub target: Seq<char>,
    pub path: Seq<char>,
    pub field: Seq<char>,
    pub reference: Seq<char>,
}

/// An edge as a cycle sees it: source, field and target.
pub type Key = (Seq<char>, Seq<char>, Seq<char>);

/// The key of an edge.
pub open spec fn key_of(e: EdgeView) -> Key {
    (e.source, e.field, e.target)
}

/// The edge of one relationship entry, when it is eligible: a concrete
/// reference to a recognized artifact of the expected kind. A
/// `superseded_by` entry is read in the supersedes direction.
pub open spec fn edge_for(
    s: Seq<SnapshotView>,
    v: SnapshotView,
    source: Seq<char>,
    field: Seq<char>,
    r: Seq<char>,
    fam: CycleFamily,
) -> Seq<EdgeView> {
    if !is_concrete_reference(r) || !has_target(s, r) {
        seq![]
    } else if policy_of(v.kind, field) is Expected && !target_has_kind(
        s,
        r,
        policy_of(v.kind, field)->0,
    ) {
        seq![]
    } else if fam == CycleFamily::Supersession && field == "superseded_by"@ {
        seq![EdgeView { source: r, target: source, path: v.path, field, reference: r }]
    } else {
        seq![EdgeView { source, target: r, path: v.path, field, reference: r }]
    }
}

/// The edges of one field of a snapshot.
pub open spec fn field_edges(s: Seq<SnapshotView>, v: SnapshotView, field: Seq<char>, fam: CycleFamily) -> Seq<
    EdgeView,
> {
    match v.id {
        None => seq![],
        Some(source) => match meta_get(v.metadata, field) {
            None => seq![],
            Some(val) => if !cycle_shape(field, val) || policy_of(v.kind, field)
                == RelationshipPolicy::Ignore {
                seq![]
            } else {
                value_strings(val).flat_map(|r: Seq<char>| edge_for(s, v, source, field, r, fam))
            },
        },
    }
}

/// The edges of a family's graph.
pub open spec fn edges_of(s: Seq<SnapshotView>, fam: CycleFamily) -> Seq<EdgeView> {
    s.flat_map(
        |v: SnapshotView| family_fields(fam).flat_map(|f: Seq<char>| field_edges(s, v, f, fam)),
    )
}

/// `k` is the key of some edge.
pub open spec fn is_edge_key(edges: Seq<EdgeView>, k: Key) -> bool {
    exists|i: int| 0 <= i < edges.len() && key_of(#[trigger] edges[i]) == k
}

/// An elementary cycle written from its smallest artifact: consecutive keys
/// chain, the last returns to the first source, and the artifacts passed on
/// the way are distinct and greater than the first.
pub open spec fn cycle_walk(edges: Seq<EdgeView>, w: Seq<Key>) -> bool {
    &&& w.len() >= 1
    &&& forall|i: int| 0 <= i < w.len() ==> is_edge_key(edges, #[trigger] w[i])
    &&& forall|i: int| 0 <= i < w.len() - 1 ==> (#[trigger] w[i]).2 == w[i + 1].0
    &&& w.last().2 == w[0].0
    &&& forall|i: int| 0 <= i < w.len() - 1 ==> lex_lt(w[0].0, (#[trigger] w[i]).2)
    &&& forall|i: int, j: int| 0 <= i < j < w.len() - 1 ==> (#[trigger] w[i]).2 != (#[trigger] w[j]).2
}

/// All cycles of a graph.
pub open spec fn cycles_of(edges: Seq<EdgeView>) -> Set<Seq<Key>> {
    Set::new(|w: Seq<Key>| cycle_walk(edges, w))
}

/// The text that identifies a cycle.
pub open spec fn cycle_identity(c: Seq<Key>, fam: CycleFamily) -> Seq<char> {
    family_label(fam) + ":"@ + join(c.map_values(|k: Key| k.0 + "-"@ + k.1 + "-"@ + k.2), ","@)
}

/// The finding on the entry of edge `e` for cycle `c`.
pub open spec fn cycle_diag(e: EdgeView, c: Seq<Key>, fam: CycleFamily) -> DiagView {
    diag_view(
        e.path,
        None,
        "ARTIFACT.RELATIONSHIP.CYCLE"@,
        Severity::Error,
        family_label(fam) + " relationship `"@ + e.field + "` to `"@ + e.reference
            + "` participates in cycle `"@ + cycle_identity(c, fam) + "`"@,
        "break the "@ + family_label(fam) + " relationship cycle identified by `"@
            + cycle_identity(c, fam) + "`"@,
    )
}

/// The findings of the cycles in `cycles`, on every edge whose key the
/// cycle holds.
pub open spec fn cycle_findings(edges: Seq<EdgeView>, cycles: Seq<Seq<Key>>, fam: CycleFamily) -> Seq<
    DiagView,
> {
    cycles.flat_map(
        |c: Seq<Key>|
            edges.flat_map(
                |e: EdgeView|
                    if c.contains(key_of(e)) {
                        seq![cycle_diag(e, c, fam)]
                    } else {
                        seq![]
                    },
            ),
    )
}

/// `cycles` lists every cycle of `edges` once.
pub open spec fn lists_cycles(edges: Seq<EdgeView>, cycles: Seq<Seq<Key>>) -> bool {
    cycles.no_duplicates() && cycles.to_set() == cycles_of(edges)
}

// ---------------------------------------------------------------------------
// Search states
// ---------------------------------------------------------------------------
/// A path that a search from `st` may extend: chained edge keys from `st`
/// through distinct artifacts greater than `st`.
pub open spec fn open_path(edges: Seq<EdgeView>, st: Seq<char>, p: Seq<Key>) -> bool {
    &&& forall|i: int| 0 <= i < p.len() ==> is_edge_key(edges, #[trigger] p[i])
    &&& p.len() > 0 ==> p[0].0 == st
    &&& forall|i: int| 0 <= i < p.len() - 1 ==> (#[trigger] p[i]).2 == p[i + 1].0
    &&& forall|i: int| 0 <= i < p.len() ==> lex_lt(st, (#[trigger] p[i]).2)
    &&& forall|i: int, j: int| 0 <= i < j < p.len() ==> (#[trigger] p[i]).2 != (#[trigger] p[j]).2
}

/// The artifact a path ends at.
pub open spec fn path_end(st: Seq<char>, p: Seq<Key>) -> Seq<char> {
    if p.len() == 0 {
        st
    } else {
        p.last().2
    }
}

/// The artifact `t` is not on the path.
pub open spec fn fresh(p: Seq<Key>, t: Seq<char>) -> bool {
    forall|i: int| 0 <= i < p.len() ==> (#[trigger] p[i]).2 != t
}

/// The cycles from `st` that begin with `p`.
pub open spec fn completions(edges: Seq<EdgeView>, st: Seq<char>, p: Seq<Key>) -> Set<Seq<Key>> {
    Set::new(
        |w: Seq<Key>| cycle_walk(edges, w) && w[0].0 == st && w.len() > p.len() && w.take(
            p.len() as int,
        ) == p,
    )
}

/// The cycles from `st` that begin with `p` and continue with `k`.
pub open spec fn completions_via(edges: Seq<EdgeView>, st: Seq<char>, p: Seq<Key>, k: Key) -> Set<
    Seq<Key>,
> {
    Set::new(|w: Seq<Key>| completions(edges, st, p).contains(w) && w[p.len() as int] == k)
}

/// A cycle that begins with `p` and continues with `k` either ends with `k`
/// or goes on from a fresh artifact greater than `st`.
pub proof fn lemma_completions_via(edges: Seq<EdgeView>, st: Seq<char>, p: Seq<Key>, k: Key)
    requires
        open_path(edges, st, p),
        is_edge_key(edges, k),
        k.0 == path_end(st, p),
    ensures
        completions_via(edges, st, p, k) == (if k.2 == st {
            set![p.push(k)]
        } else {
            Set::empty()
        }).union(
            if k.2 != st && lex_lt(st, k.2) && fresh(p, k.2) {
                completions(edges, st, p.push(k))
            } else {
                Set::empty()
            },
        ),
{
    let lhs = completions_via(edges, st, p, k);
    let rhs = (if k.2 == st {
        set![p.push(k)]
    } else {
        Set::empty()
    }).union(
        if k.2 != st && lex_lt(st, k.2) && fresh(p, k.2) {
            completions(edges, st, p.push(k))
        } else {
            Set::empty()
        },
    );
    let q = p.push(k);
    assert forall|w: Seq<Key>| lhs.contains(w) implies rhs.contains(w) by {
        assert(w.take(p.len() as int) == p);
        assert forall|i: int| 0 <= i < q.len() implies w[i] == q[i] by {
            if i < p.len() {
                assert(w.take(p.len() as int)[i] == w[i]);
            }
        }
        if w.len() == q.len() {
            assert(w =~= q);
            assert(k.2 == st) by {
                if p.len() > 0 {
                    assert(w[0] == p[0]);
                }
            }
        } else {
            let n = p.len() as int;
            assert(w[n] == k);
            assert(k.2 == w[n].2);
            assert(lex_lt(w[0].0, w[n].2));
            assert(w[0].0 == st);
            lemma_lex_lt_facts(st, st, st);
            assert forall|i: int| 0 <= i < p.len() implies (#[trigger] p[i]).2 != k.2 by {
                assert(w[i] == p[i]);
            }
            assert(w.take(q.len() as int) =~= q);
        }
    }
    assert forall|w: Seq<Key>| rhs.contains(w) implies lhs.contains(w) by {
        if k.2 == st && w == q {
            let n = p.len() as int;
            assert(w.take(n) =~= p);
            assert(w[0].0 == st) by {
                if n > 0 {
                    assert(w[0] == p[0]);
                }
            }
            assert(cycle_walk(edges, w)) by {
                assert forall|i: int| 0 <= i < w.len() implies is_edge_key(edges, #[trigger] w[i]) by {
                    if i < n {
                        assert(w[i] == p[i]);
                    }
                }
                assert forall|i: int| 0 <= i < w.len() - 1 implies (#[trigger] w[i]).2 == w[i + 1].0 by {
                    assert(w[i] == p[i]);
                    if i + 1 < n {
                        assert(w[i + 1] == p[i + 1]);
                    }
                }
                assert forall|i: int| 0 <= i < w.len() - 1 implies lex_lt(w[0].0, (#[trigger] w[i]).2) by {
                    assert(w[i] == p[i]);
                }
                assert forall|i: int, j: int| 0 <= i < j < w.len() - 1 implies (#[trigger] w[i]).2
                    != (#[trigger] w[j]).2 by {
                    assert(w[i] == p[i]);
                    assert(w[j] == p[j]);
                }
            }
        } else {
            assert(completions(edges, st, q).contains(w));
            assert(w.take(q.len() as int) == q);
            let n = p.len() as int;
            assert(w[n] == w.take(q.len() as int)[n]);
            assert(w.take(n) =~= w.take(q.len() as int).take(n));
            assert(q.take(n) =~= p);
        }
    }
    assert(lhs =~= rhs);
}

/// Every cycle that begins with `p` continues with the key of some edge from
/// the end of `p`.
pub proof fn lemma_completions_cover(edges: Seq<EdgeView>, st: Seq<char>, p: Seq<Key>, w: Seq<Key>)
    requires
        open_path(edges, st, p),
        completions(edges, st, p).contains(w),
    ensures
        is_edge_key(edges, w[p.len() as int]),
        w[p.len() as int].0 == path_end(st, p),
{
    let n = p.len() as int;
    assert(w.take(n) == p);
    if n > 0 {
        assert(w[n - 1] == w.take(n)[n - 1]);
        assert(w[n - 1].2 == w[n].0);
    }
}

/// The cycles from `st` are the completions of the empty path.
pub proof fn lemma_cycles_from(edges: Seq<EdgeView>, st: Seq<char>)
    ensures
        completions(edges, st, Seq::empty()) == Set::new(
            |w: Seq<Key>| cycle_walk(edges, w) && w[0].0 == st,
        ),
{
    assert forall|w: Seq<Key>| cycle_walk(edges, w) && w[0].0 == st implies completions(
        edges,
        st,
        Seq::empty(),
    ).contains(w) by {
        assert(w.take(0) =~= Seq::<Key>::empty());
    }
    assert(completions(edges, st, Seq::empty()) =~= Set::new(
        |w: Seq<Key>| cycle_walk(edges, w) && w[0].0 == st,
    ));
}

/// Number of edges whose target is neither `st` nor on the path.
pub open spec fn open_edges(edges: Seq<EdgeView>, st: Seq<char>, p: Seq<Key>) -> nat
    decreases edges.len(),
{
    if edges.len() == 0 {
        0
    } else {
        open_edges(edges.drop_last(), st, p) + (if edges.last().target != st && fresh(
            p,
            edges.last().target,
        ) {
            1nat
        } else {
            0nat
        })
    }
}

/// Extending the path with a fresh artifact closes at least one edge.
pub proof fn lemma_open_edges_decrease(edges: Seq<EdgeView>, st: Seq<char>, p: Seq<Key>, k: Key, i: int)
    requires
        0 <= i < edges.len(),
        edges[i].target == k.2,
        k.2 != st,
        fresh(p, k.2),
    ensures
        open_edges(edges, st, p.push(k)) < open_edges(edges, st, p),
    decreases edges.len(),
{
    let last = edges.last().target;
    lemma_fresh_push(p, k, last);
    if i < edges.len() - 1 {
        assert(edges.drop_last()[i] == edges[i]);
        lemma_open_edges_decrease(edges.drop_last(), st, p, k, i);
    } else {
        lemma_open_edges_mono(edges.drop_last(), st, p, k);
        assert(!fresh(p.push(k), k.2)) by {
            assert(p.push(k)[p.len() as int] == k);
        }
    }
}

/// A fresh artifact for a longer path is fresh for the shorter one.
pub proof fn lemma_fresh_push(p: Seq<Key>, k: Key, t: Seq<char>)
    ensures
        fresh(p.push(k), t) ==> fresh(p, t),
{
    if fresh(p.push(k), t) {
        assert forall|j: int| 0 <= j < p.len() implies (#[trigger] p[j]).2 != t by {
            assert(p.push(k)[j] == p[j]);
        }
    }
}

/// Extending the path never opens an edge.
pub proof fn lemma_open_edges_mono(edges: Seq<EdgeView>, st: Seq<char>, p: Seq<Key>, k: Key)
    ensures
        open_edges(edges, st, p.push(k)) <= open_edges(edges, st, p),
    decreases edges.len(),
{
    if edges.len() > 0 {
        lemma_open_edges_mono(edges.drop_last(), st, p, k);
        lemma_fresh_push(p, k, edges.last().target);
    }
}


// ---------------------------------------------------------------------------
// Edges
// ---------------------------------------------------------------------------
/// An edge of a relationship graph.
#[derive(Clone, Debug)]
pub struct CycleEdge {
    source: String,
    target: String,
    path: ArtifactPath,
    field: &'static str,
    reference: String,
}

impl View for CycleEdge {
    type V = EdgeView;

    closed spec fn view(&self) -> EdgeView {
        EdgeView {
            source: self.source@,
            target: self.target@,
            path: self.path@,
            field: self.field@,
            reference: self.reference@,
        }
    }
}

fn family_fields_of(fam: CycleFamily) -> (res: Vec<&'static str>)
    ensures
        crate::text::str_views(res@) == family_fields(fam),
{
    let res = match fam {
        CycleFamily::Parent => vec!["parent"],
        CycleFamily::Dependency => vec!["depends_on", "requires", "blockers"],
        CycleFamily::Supersession => vec!["supersedes", "superseded_by"],
    };
    proof {
        assert(crate::text::str_views(res@) =~= family_fields(fam));
    }
    res
}

fn family_label_of(fam: CycleFamily) -> (res: &'static str)
    ensures
        res@ == family_label(fam),
{
    match fam {
        CycleFamily::Parent => "parent",
        CycleFamily::Dependency => "dependency",
        CycleFamily::Supersession => "supersession",
    }
}

fn cycle_shape_of(field: &str, v: &crate::artifact::MetadataValue) -> (res: bool)
    ensures
        res == cycle_shape(field@, v@),
{
    if text_eq(field, "depends_on") || text_eq(field, "requires") || text_eq(field, "blockers") {
        matches!(v, crate::artifact::MetadataValue::Sequence(_))
    } else if text_eq(field, "parent") || text_eq(field, "supersedes") || text_eq(
        field,
        "superseded_by",
    ) {
        matches!(v, crate::artifact::MetadataValue::Scalar(_))
    } else {
        false
    }
}

fn add_edge_for(
    snapshots: &[ArtifactSnapshot],
    v: &ArtifactSnapshot,
    source: &str,
    field: &'static str,
    r: &str,
    fam: CycleFamily,
    out: &mut Vec<CycleEdge>,
)
    ensures
        view_seq(final(out)@) == view_seq(old(out)@) + edge_for(
            view_seq(snapshots@),
            v@,
            source@,
            field@,
            r@,
            fam,
        ),
{
    if !concrete_reference(r) || !has_target_of(snapshots, r) {
        assert(view_seq(out@) =~= view_seq(out@) + Seq::<EdgeView>::empty());
        return ;
    }
    match relationship_policy(v.kind(), field) {
        RelationshipPolicy::Expected(k) => {
            if !target_has_kind_of(snapshots, r, k) {
                assert(view_seq(out@) =~= view_seq(out@) + Seq::<EdgeView>::empty());
                return ;
            }
        },
        _ => {},
    }
    let edge = if fam == CycleFamily::Supersession && text_eq(field, "superseded_by") {
        CycleEdge {
            source: owned(r),
            target: owned(source),
            path: v.path().duplicate(),
            field,
            reference: owned(r),
        }
    } else {
        CycleEdge {
            source: owned(source),
            target: owned(r),
            path: v.path().duplicate(),
            field,
            reference: owned(r),
        }
    };
    proof {
        crate::copy::lemma_view_seq_push(out@, edge);
    }
    out.push(edge);
}

fn add_field_edges(
    snapshots: &[ArtifactSnapshot],
    v: &ArtifactSnapshot,
    field: &'static str,
    fam: CycleFamily,
    out: &mut Vec<CycleEdge>,
)
    ensures
        view_seq(final(out)@) == view_seq(old(out)@) + field_edges(view_seq(snapshots@), v@, field@, fam),
{
    let ghost s = view_seq(snapshots@);
    let ghost base = view_seq(out@);
    let source = match v.id() {
        Some(id) => id.as_str(),
        None => {
            assert(view_seq(out@) =~= base + Seq::<EdgeView>::empty());
            return ;
        },
    };
    let value = match v.metadata().get(field) {
        Some(value) => value,
        None => {
            assert(view_seq(out@) =~= base + Seq::<EdgeView>::empty());
            return ;
        },
    };
    if !cycle_shape_of(field, value) || relationship_policy(v.kind(), field)
        == RelationshipPolicy::Ignore {
        assert(view_seq(out@) =~= base + Seq::<EdgeView>::empty());
        return ;
    }
    let refs = value_texts(value);
    let ghost all = value_strings(value@);
    let mut i: usize = 0;
    while i < refs.len()
        invariant
            i <= refs@.len(),
            s == view_seq(snapshots@),
            crate::text::str_views(refs@) == all,
            view_seq(out@) == base + all.take(i as int).flat_map(
                |r: Seq<char>| edge_for(s, v@, source@, field@, r, fam),
            ),
        decreases refs@.len() - i,
    {
        proof {
            assert(refs@[i as int]@ == all[i as int]);
            all.lemma_flat_map_take_append(
                |r: Seq<char>| edge_for(s, v@, source@, field@, r, fam),
                i as int,
            );
        }
        add_edge_for(snapshots, v, source, field, refs[i], fam, out);
        i = i + 1;
    }
    proof {
        assert(all.take(i as int) =~= all);
    }
}

/// The edges of a family's graph.
fn eligible_edges(snapshots: &[ArtifactSnapshot], fam: CycleFamily) -> (res: Vec<CycleEdge>)
    ensures
        view_seq(res@) == edges_of(view_seq(snapshots@), fam),
{
    let ghost s = view_seq(snapshots@);
    let fields = family_fields_of(fam);
    let ghost fs = family_fields(fam);
    let mut out: Vec<CycleEdge> = Vec::new();
    let mut k: usize = 0;
    while k < snapshots.len()
        invariant
            k <= snapshots@.len(),
            s == view_seq(snapshots@),
            crate::text::str_views(fields@) == fs,
            fs == family_fields(fam),
            view_seq(out@) == s.take(k as int).flat_map(
                |v: SnapshotView| family_fields(fam).flat_map(|f: Seq<char>| field_edges(s, v, f, fam)),
            ),
        decreases snapshots@.len() - k,
    {
        let v = &snapshots[k];
        let ghost base = view_seq(out@);
        proof {
            assert(v@ == s[k as int]);
            s.lemma_flat_map_take_append(
                |v: SnapshotView| family_fields(fam).flat_map(|f: Seq<char>| field_edges(s, v, f, fam)),
                k as int,
            );
        }
        let mut j: usize = 0;
        while j < fields.len()
            invariant
                j <= fields@.len(),
                s == view_seq(snapshots@),
                crate::text::str_views(fields@) == fs,
                view_seq(out@) == base + fs.take(j as int).flat_map(
                    |f: Seq<char>| field_edges(s, v@, f, fam),
                ),
            decreases fields@.len() - j,
        {
            proof {
                assert(fields@[j as int]@ == fs[j as int]);
                fs.lemma_flat_map_take_append(|f: Seq<char>| field_edges(s, v@, f, fam), j as int);
            }
            add_field_edges(snapshots, v, fields[j], fam, &mut out);
            j = j + 1;
        }
        proof {
            assert(fs.take(j as int) =~= fs);
        }
        k = k + 1;
    }
    proof {
        assert(s.take(k as int) =~= s);
    }
    out
}


// ---------------------------------------------------------------------------
// Search
// ---------------------------------------------------------------------------
/// The keys of the edges at some indices.
pub open spec fn keys_at(edges: Seq<EdgeView>, idx: Seq<usize>) -> Seq<Key> {
    idx.map_values(|i: usize| key_of(edges[i as int]))
}

/// Every index is an edge index.
pub open spec fn valid_indices(n: nat, idx: Seq<usize>) -> bool {
    forall|i: int| 0 <= i < idx.len() ==> (#[trigger] idx[i]) < n
}

/// The key sequences of found cycles.
pub open spec fn found_keys(edges: Seq<EdgeView>, found: Seq<Vec<usize>>) -> Seq<Seq<Key>> {
    found.map_values(|c: Vec<usize>| keys_at(edges, c@))
}

/// Every found cycle holds edge indices.
pub open spec fn found_valid(n: nat, found: Seq<Vec<usize>>) -> bool {
    forall|i: int| 0 <= i < found.len() ==> valid_indices(n, (#[trigger] found[i])@)
}

/// The completions whose next key is that of an edge from `cur` among the
/// first `i` edges.
pub open spec fn partial(edges: Seq<EdgeView>, st: Seq<char>, p: Seq<Key>, cur: Seq<char>, i: int) -> Set<
    Seq<Key>,
> {
    Set::new(
        |w: Seq<Key>|
            completions(edges, st, p).contains(w) && exists|j: int|
                0 <= j < i && (#[trigger] edges[j]).source == cur && key_of(edges[j]) == w[p.len() as int],
    )
}

fn same_key(a: &CycleEdge, b: &CycleEdge) -> (res: bool)
    ensures
        res == (key_of(a@) == key_of(b@)),
{
    text_eq(a.source.as_str(), b.source.as_str()) && text_eq(a.field, b.field) && text_eq(
        a.target.as_str(),
        b.target.as_str(),
    )
}

fn same_cycle(edges: &[CycleEdge], a: &[usize], b: &[usize]) -> (res: bool)
    requires
        valid_indices(edges@.len(), a@),
        valid_indices(edges@.len(), b@),
    ensures
        res == (keys_at(view_seq(edges@), a@) == keys_at(view_seq(edges@), b@)),
{
    let ghost e = view_seq(edges@);
    if a.len() != b.len() {
        proof {
            assert(keys_at(e, a@).len() != keys_at(e, b@).len());
        }
        return false;
    }
    let mut i: usize = 0;
    while i < a.len()
        invariant
            i <= a@.len(),
            a@.len() == b@.len(),
            e == view_seq(edges@),
            valid_indices(edges@.len(), a@),
            valid_indices(edges@.len(), b@),
            forall|q: int| 0 <= q < i ==> keys_at(e, a@)[q] == keys_at(e, b@)[q],
        decreases a@.len() - i,
    {
        proof {
            assert(a@[i as int] < edges@.len());
            assert(b@[i as int] < edges@.len());
            assert(edges@[a@[i as int] as int]@ == e[a@[i as int] as int]);
            assert(edges@[b@[i as int] as int]@ == e[b@[i as int] as int]);
        }
        if !same_key(&edges[a[i]], &edges[b[i]]) {
            proof {
                assert(keys_at(e, a@)[i as int] != keys_at(e, b@)[i as int]);
            }
            return false;
        }
        i = i + 1;
    }
    proof {
        assert(keys_at(e, a@) =~= keys_at(e, b@));
    }
    true
}

fn holds_cycle(edges: &[CycleEdge], found: &Vec<Vec<usize>>, cand: &[usize]) -> (res: bool)
    requires
        found_valid(edges@.len(), found@),
        valid_indices(edges@.len(), cand@),
    ensures
        res == found_keys(view_seq(edges@), found@).contains(keys_at(view_seq(edges@), cand@)),
{
    let ghost e = view_seq(edges@);
    let mut i: usize = 0;
    while i < found.len()
        invariant
            i <= found@.len(),
            e == view_seq(edges@),
            found_valid(edges@.len(), found@),
            valid_indices(edges@.len(), cand@),
            forall|q: int| 0 <= q < i ==> found_keys(e, found@)[q] != keys_at(e, cand@),
        decreases found@.len() - i,
    {
        proof {
            assert(valid_indices(edges@.len(), found@[i as int]@));
        }
        if same_cycle(edges, found[i].as_slice(), cand) {
            proof {
                assert(found_keys(e, found@)[i as int] == keys_at(e, cand@));
            }
            return true;
        }
        i = i + 1;
    }
    false
}

fn is_fresh(edges: &[CycleEdge], path: &[usize], st: &str, t: &str) -> (res: bool)
    requires
        valid_indices(edges@.len(), path@),
    ensures
        res == (t@ != st@ && fresh(keys_at(view_seq(edges@), path@), t@)),
{
    let ghost e = view_seq(edges@);
    if text_eq(t, st) {
        return false;
    }
    let mut i: usize = 0;
    while i < path.len()
        invariant
            i <= path@.len(),
            e == view_seq(edges@),
            valid_indices(edges@.len(), path@),
            forall|q: int| 0 <= q < i ==> (#[trigger] keys_at(e, path@)[q]).2 != t@,
        decreases path@.len() - i,
    {
        proof {
            assert(path@[i as int] < edges@.len());
            assert(edges@[path@[i as int] as int]@ == e[path@[i as int] as int]);
        }
        if text_eq(edges[path[i]].target.as_str(), t) {
            proof {
                assert(keys_at(e, path@)[i as int].2 == t@);
            }
            return false;
        }
        i = i + 1;
    }
    true
}

proof fn lemma_keys_at_push(edges: Seq<EdgeView>, idx: Seq<usize>, i: usize)
    ensures
        keys_at(edges, idx.push(i)) == keys_at(edges, idx).push(key_of(edges[i as int])),
{
    assert(keys_at(edges, idx.push(i)) =~= keys_at(edges, idx).push(key_of(edges[i as int])));
}

proof fn lemma_found_push(edges: Seq<EdgeView>, found: Seq<Vec<usize>>, c: Vec<usize>)
    ensures
        found_keys(edges, found.push(c)) == found_keys(edges, found).push(keys_at(edges, c@)),
{
    assert(found_keys(edges, found.push(c)) =~= found_keys(edges, found).push(keys_at(edges, c@)));
}

/// One more edge from `cur` adds its continuations to the partial set.
proof fn lemma_partial_step(edges: Seq<EdgeView>, st: Seq<char>, p: Seq<Key>, cur: Seq<char>, i: int)
    requires
        0 <= i < edges.len(),
    ensures
        partial(edges, st, p, cur, i + 1) == partial(edges, st, p, cur, i).union(
            if edges[i].source == cur {
                completions_via(edges, st, p, key_of(edges[i]))
            } else {
                Set::empty()
            },
        ),
{
    let lhs = partial(edges, st, p, cur, i + 1);
    let rhs = partial(edges, st, p, cur, i).union(
        if edges[i].source == cur {
            completions_via(edges, st, p, key_of(edges[i]))
        } else {
            Set::empty()
        },
    );
    assert forall|w: Seq<Key>| lhs.contains(w) implies rhs.contains(w) by {
        let j = choose|j: int|
            0 <= j < i + 1 && (#[trigger] edges[j]).source == cur && key_of(edges[j]) == w[p.len() as int];
        if j < i {
            assert(partial(edges, st, p, cur, i).contains(w));
        }
    }
    assert forall|w: Seq<Key>| rhs.contains(w) implies lhs.contains(w) by {
        if !partial(edges, st, p, cur, i).contains(w) {
            assert(edges[i].source == cur && key_of(edges[i]) == w[p.len() as int]);
        }
    }
    assert(lhs =~= rhs);
}

/// After all edges, the partial set is every completion.
proof fn lemma_partial_full(edges: Seq<EdgeView>, st: Seq<char>, p: Seq<Key>)
    requires
        open_path(edges, st, p),
    ensures
        partial(edges, st, p, path_end(st, p), edges.len() as int) == completions(edges, st, p),
{
    let cur = path_end(st, p);
    assert forall|w: Seq<Key>| completions(edges, st, p).contains(w) implies partial(
        edges,
        st,
        p,
        cur,
        edges.len() as int,
    ).contains(w) by {
        lemma_completions_cover(edges, st, p, w);
        let j = choose|j: int| 0 <= j < edges.len() && key_of(#[trigger] edges[j]) == w[p.len() as int];
        assert(edges[j].source == cur);
    }
    assert(partial(edges, st, p, cur, edges.len() as int) =~= completions(edges, st, p));
}

/// A path extended with a fresh artifact greater than `st` is open.
proof fn lemma_open_path_push(edges: Seq<EdgeView>, st: Seq<char>, p: Seq<Key>, k: Key)
    requires
        open_path(edges, st, p),
        is_edge_key(edges, k),
        k.0 == path_end(st, p),
        lex_lt(st, k.2),
        fresh(p, k.2),
    ensures
        open_path(edges, st, p.push(k)),
{
    let q = p.push(k);
    assert forall|a: int| 0 <= a < q.len() implies is_edge_key(edges, #[trigger] q[a]) by {
        if a < p.len() {
            assert(q[a] == p[a]);
        }
    }
    if p.len() > 0 {
        assert(q[0] == p[0]);
    }
    assert forall|a: int| 0 <= a < q.len() - 1 implies (#[trigger] q[a]).2 == q[a + 1].0 by {
        assert(q[a] == p[a]);
        if a + 1 < p.len() {
            assert(q[a + 1] == p[a + 1]);
        }
    }
    assert forall|a: int| 0 <= a < q.len() implies lex_lt(st, (#[trigger] q[a]).2) by {
        if a < p.len() {
            assert(q[a] == p[a]);
        }
    }
    assert forall|a: int, b: int| 0 <= a < b < q.len() implies (#[trigger] q[a]).2
        != (#[trigger] q[b]).2 by {
        assert(q[a] == p[a]);
        if b < p.len() {
            assert(q[b] == p[b]);
        }
    }
}

/// Records the cycle that the path closes with edge `i`, unless it is
/// already recorded.
fn record_cycle(edges: &[CycleEdge], path: &Vec<usize>, i: usize, found: &mut Vec<Vec<usize>>)
    requires
        i < edges@.len(),
        valid_indices(edges@.len(), path@),
        found_valid(edges@.len(), old(found)@),
        found_keys(view_seq(edges@), old(found)@).no_duplicates(),
    ensures
        found_valid(edges@.len(), final(found)@),
        found_keys(view_seq(edges@), final(found)@).no_duplicates(),
        found_keys(view_seq(edges@), final(found)@).to_set() == found_keys(
            view_seq(edges@),
            old(found)@,
        ).to_set().insert(keys_at(view_seq(edges@), path@).push(key_of(view_seq(edges@)[i as int]))),
{
    let ghost e = view_seq(edges@);
    let ghost target = keys_at(e, path@).push(key_of(e[i as int]));
    let mut cand: Vec<usize> = path.clone();
    proof {
        assert(cand@ == path@);
    }
    cand.push(i);
    proof {
        lemma_keys_at_push(e, path@, i);
        assert(valid_indices(edges@.len(), cand@)) by {
            assert forall|q: int| 0 <= q < cand@.len() implies (#[trigger] cand@[q]) < edges@.len() by {
                if q < path@.len() {
                    assert(cand@[q] == path@[q]);
                }
            }
        }
    }
    if !holds_cycle(edges, found, cand.as_slice()) {
        let ghost old_found = found@;
        proof {
            lemma_found_push(e, old_found, cand);
        }
        found.push(cand);
        proof {
            assert(found_valid(edges@.len(), found@)) by {
                assert forall|q: int| 0 <= q < found@.len() implies valid_indices(
                    edges@.len(),
                    (#[trigger] found@[q])@,
                ) by {
                    if q < old_found.len() {
                        assert(found@[q] == old_found[q]);
                    }
                }
            }
            found_keys(e, old_found).lemma_push_to_set_commute(target);
        }
    } else {
        proof {
            assert(found_keys(e, found@).to_set().contains(target));
            assert(found_keys(e, found@).to_set().insert(target) =~= found_keys(e, found@).to_set());
        }
    }
}

/// Extends the path in every way that closes a cycle at `st`, recording
/// each cycle found once.
fn visit(edges: &[CycleEdge], st: &str, entry: Vec<usize>, found: &mut Vec<Vec<usize>>) -> (res: Vec<
    usize,
>)
    requires
        valid_indices(edges@.len(), entry@),
        open_path(view_seq(edges@), st@, keys_at(view_seq(edges@), entry@)),
        found_valid(edges@.len(), old(found)@),
        found_keys(view_seq(edges@), old(found)@).no_duplicates(),
    ensures
        res@ == entry@,
        found_valid(edges@.len(), final(found)@),
        found_keys(view_seq(edges@), final(found)@).no_duplicates(),
        found_keys(view_seq(edges@), final(found)@).to_set() == found_keys(
            view_seq(edges@),
            old(found)@,
        ).to_set().union(completions(view_seq(edges@), st@, keys_at(view_seq(edges@), entry@))),
    decreases open_edges(view_seq(edges@), st@, keys_at(view_seq(edges@), entry@)),
{
    let mut path = entry;
    let ghost e = view_seq(edges@);
    let ghost p0 = path@;
    let ghost pk = keys_at(e, p0);
    let ghost f0 = found_keys(e, found@).to_set();
    let cur = if path.len() == 0 {
        owned(st)
    } else {
        let last = path[path.len() - 1];
        proof {
            assert(last < edges@.len());
            assert(edges@[last as int]@ == e[last as int]);
            assert(pk.last() == key_of(e[last as int]));
        }
        edges[last].target.duplicate()
    };
    proof {
        assert(cur@ == path_end(st@, pk));
        assert(partial(e, st@, pk, cur@, 0) =~= Set::<Seq<Key>>::empty());
        assert(f0.union(Set::<Seq<Key>>::empty()) =~= f0);
    }
    let mut i: usize = 0;
    while i < edges.len()
        invariant
            i <= edges@.len(),
            e == view_seq(edges@),
            path@ == p0,
            entry@ == p0,
            pk == keys_at(e, p0),
            valid_indices(edges@.len(), p0),
            open_path(e, st@, pk),
            cur@ == path_end(st@, pk),
            found_valid(edges@.len(), found@),
            found_keys(e, found@).no_duplicates(),
            found_keys(e, found@).to_set() == f0.union(partial(e, st@, pk, cur@, i as int)),
        decreases edges@.len() - i,
    {
        let edge = &edges[i];
        let ghost k = key_of(e[i as int]);
        let ghost before = found_keys(e, found@).to_set();
        proof {
            assert(edge@ == e[i as int]);
            lemma_partial_step(e, st@, pk, cur@, i as int);
        }
        if text_eq(edge.source.as_str(), cur.as_str()) {
            proof {
                assert(is_edge_key(e, k));
                lemma_completions_via(e, st@, pk, k);
            }
            if text_eq(edge.target.as_str(), st) {
                record_cycle(edges, &path, i, &mut *found);
                proof {
                    assert(completions_via(e, st@, pk, k) =~= set![pk.push(k)]);
                    assert(found_keys(e, found@).to_set() =~= f0.union(
                        partial(e, st@, pk, cur@, i + 1),
                    ));
                }
            } else if !crate::diagnostic::text_lt(edge.target.as_str(), st) && is_fresh(
                edges,
                path.as_slice(),
                st,
                edge.target.as_str(),
            ) {
                proof {
                    crate::text::lemma_lex_total(k.2, st@);
                    lemma_lex_lt_facts(k.2, st@, k.2);
                    lemma_keys_at_push(e, p0, i);
                    lemma_open_edges_decrease(e, st@, pk, k, i as int);
                    lemma_open_path_push(e, st@, pk, k);
                }
                path.push(i);
                proof {
                    assert(path@ == p0.push(i));
                    assert(keys_at(e, path@) == pk.push(k));
                    assert(open_edges(e, st@, keys_at(e, path@)) < open_edges(e, st@, pk));
                    assert(valid_indices(edges@.len(), path@)) by {
                        assert forall|q: int| 0 <= q < path@.len() implies (#[trigger] path@[q])
                            < edges@.len() by {
                            if q < p0.len() {
                                assert(path@[q] == p0[q]);
                            }
                        }
                    }
                }
                path = visit(edges, st, path, found);
                path.pop();
                proof {
                    assert(path@ =~= p0);
                    assert(completions_via(e, st@, pk, k) =~= completions(e, st@, pk.push(k)));
                    assert(found_keys(e, found@).to_set() =~= f0.union(
                        partial(e, st@, pk, cur@, i + 1),
                    ));
                }
            } else {
                proof {
                    if k.2 != st@ && lex_lt(st@, k.2) {
                        lemma_lex_lt_facts(st@, k.2, st@);
                    }
                    assert(completions_via(e, st@, pk, k) =~= Set::<Seq<Key>>::empty());
                    assert(found_keys(e, found@).to_set() =~= f0.union(
                        partial(e, st@, pk, cur@, i + 1),
                    ));
                }
            }
        } else {
            proof {
                assert(partial(e, st@, pk, cur@, i + 1) =~= partial(e, st@, pk, cur@, i as int));
            }
        }
        i = i + 1;
    }
    proof {
        lemma_partial_full(e, st@, pk);
    }
    path
}


/// Every cycle of the graph, each once.
fn find_cycles(edges: &[CycleEdge]) -> (res: Vec<Vec<usize>>)
    ensures
        found_valid(edges@.len(), res@),
        lists_cycles(view_seq(edges@), found_keys(view_seq(edges@), res@)),
{
    let ghost e = view_seq(edges@);
    let mut found: Vec<Vec<usize>> = Vec::new();
    proof {
        assert(found_keys(e, found@) =~= Seq::<Seq<Key>>::empty());
        assert(found_keys(e, found@).to_set() =~= Set::new(
            |w: Seq<Key>| cycle_walk(e, w) && exists|j: int| 0 <= j < 0 && (#[trigger] e[j]).source == w[0].0,
        ));
    }
    let mut i: usize = 0;
    while i < edges.len()
        invariant
            i <= edges@.len(),
            e == view_seq(edges@),
            found_valid(edges@.len(), found@),
            found_keys(e, found@).no_duplicates(),
            found_keys(e, found@).to_set() == Set::new(
                |w: Seq<Key>| cycle_walk(e, w) && exists|j: int| 0 <= j < i && (#[trigger] e[j]).source == w[0].0,
            ),
        decreases edges@.len() - i,
    {
        let st = edges[i].source.duplicate();
        let ghost before = found_keys(e, found@).to_set();
        proof {
            assert(edges@[i as int]@ == e[i as int]);
            lemma_cycles_from(e, st@);
            assert(keys_at(e, Seq::<usize>::empty()) =~= Seq::<Key>::empty());
        }
        let start: Vec<usize> = Vec::new();
        proof {
            assert(keys_at(e, start@) =~= Seq::<Key>::empty());
        }
        let _path = visit(edges, st.as_str(), start, &mut found);
        proof {
            assert(found_keys(e, found@).to_set() =~= Set::new(
                |w: Seq<Key>| cycle_walk(e, w) && exists|j: int| 0 <= j < i + 1 && (#[trigger] e[j]).source == w[0].0,
            )) by {
                assert forall|w: Seq<Key>| #![trigger cycle_walk(e, w)] cycle_walk(e, w) && w[0].0 == st@
                    implies exists|j: int| 0 <= j < i + 1 && (#[trigger] e[j]).source == w[0].0 by {
                    assert(e[i as int].source == w[0].0);
                }
                assert forall|w: Seq<Key>| #![trigger cycle_walk(e, w)] cycle_walk(e, w) && (exists|j: int|
                    0 <= j < i + 1 && (#[trigger] e[j]).source == w[0].0) && !(exists|j: int|
                    0 <= j < i && (#[trigger] e[j]).source == w[0].0) implies w[0].0 == st@ by {
                    let j = choose|j: int| 0 <= j < i + 1 && (#[trigger] e[j]).source == w[0].0;
                    assert(j == i);
                }
            }
        }
        i = i + 1;
    }
    proof {
        assert(found_keys(e, found@).to_set() =~= cycles_of(e)) by {
            assert forall|w: Seq<Key>| cycle_walk(e, w) implies exists|j: int|
                0 <= j < e.len() && (#[trigger] e[j]).source == w[0].0 by {
                assert(is_edge_key(e, w[0]));
                let j = choose|j: int| 0 <= j < e.len() && key_of(#[trigger] e[j]) == w[0];
                assert(e[j].source == w[0].0);
            }
        }
    }
    found
}

fn cycle_holds_key(edges: &[CycleEdge], c: &[usize], b: usize) -> (res: bool)
    requires
        valid_indices(edges@.len(), c@),
        b < edges@.len(),
    ensures
        res == keys_at(view_seq(edges@), c@).contains(key_of(view_seq(edges@)[b as int])),
{
    let ghost e = view_seq(edges@);
    let mut i: usize = 0;
    while i < c.len()
        invariant
            i <= c@.len(),
            e == view_seq(edges@),
            valid_indices(edges@.len(), c@),
            b < edges@.len(),
            forall|q: int| 0 <= q < i ==> keys_at(e, c@)[q] != key_of(e[b as int]),
        decreases c@.len() - i,
    {
        proof {
            assert(c@[i as int] < edges@.len());
            assert(edges@[c@[i as int] as int]@ == e[c@[i as int] as int]);
            assert(edges@[b as int]@ == e[b as int]);
        }
        if same_key(&edges[c[i]], &edges[b]) {
            proof {
                assert(keys_at(e, c@)[i as int] == key_of(e[b as int]));
            }
            return true;
        }
        i = i + 1;
    }
    false
}

fn cycle_identity_of(edges: &[CycleEdge], c: &[usize], fam: CycleFamily) -> (res: String)
    requires
        valid_indices(edges@.len(), c@),
    ensures
        res@ == cycle_identity(keys_at(view_seq(edges@), c@), fam),
{
    let ghost e = view_seq(edges@);
    let ghost texts = keys_at(e, c@).map_values(|k: Key| k.0 + "-"@ + k.1 + "-"@ + k.2);
    let mut parts: Vec<String> = Vec::new();
    let mut i: usize = 0;
    while i < c.len()
        invariant
            i <= c@.len(),
            e == view_seq(edges@),
            valid_indices(edges@.len(), c@),
            texts == keys_at(e, c@).map_values(|k: Key| k.0 + "-"@ + k.1 + "-"@ + k.2),
            view_seq(parts@) == texts.take(i as int),
        decreases c@.len() - i,
    {
        let edge = &edges[c[i]];
        proof {
            assert(c@[i as int] < edges@.len());
            assert(edge@ == e[c@[i as int] as int]);
        }
        let text = cat(cat(cat(cat(edge.source.duplicate(), "-"), edge.field), "-"), edge.target.as_str());
        proof {
            assert(text@ == texts[i as int]);
            crate::copy::lemma_view_seq_push(parts@, text);
            assert(texts.take(i + 1) =~= texts.take(i as int).push(texts[i as int]));
        }
        parts.push(text);
        i = i + 1;
    }
    proof {
        assert(texts.take(i as int) =~= texts);
    }
    let list = crate::identity::join_texts(parts.as_slice(), ",");
    cat(cat(owned(family_label_of(fam)), ":"), list.as_str())
}

fn add_cycle_findings(
    edges: &[CycleEdge],
    found: &Vec<Vec<usize>>,
    fam: CycleFamily,
    out: &mut Vec<Diagnostic>,
)
    requires
        found_valid(edges@.len(), found@),
    ensures
        view_seq(final(out)@) == view_seq(old(out)@) + cycle_findings(
            view_seq(edges@),
            found_keys(view_seq(edges@), found@),
            fam,
        ),
{
    let ghost e = view_seq(edges@);
    let ghost cs = found_keys(e, found@);
    let ghost base = view_seq(out@);
    let label = family_label_of(fam);
    let mut a: usize = 0;
    while a < found.len()
        invariant
            a <= found@.len(),
            e == view_seq(edges@),
            cs == found_keys(e, found@),
            found_valid(edges@.len(), found@),
            label@ == family_label(fam),
            view_seq(out@) == base + cycle_findings(e, cs.take(a as int), fam),
        decreases found@.len() - a,
    {
        let c = found[a].as_slice();
        let ghost ck = cs[a as int];
        proof {
            assert(valid_indices(edges@.len(), c@));
            assert(ck == keys_at(e, c@));
            cs.lemma_flat_map_take_append(
                |c: Seq<Key>|
                    e.flat_map(
                        |x: EdgeView|
                            if c.contains(key_of(x)) {
                                seq![cycle_diag(x, c, fam)]
                            } else {
                                seq![]
                            },
                    ),
                a as int,
            );
        }
        let identity = cycle_identity_of(edges, c, fam);
        let ghost mid = view_seq(out@);
        let mut b: usize = 0;
        while b < edges.len()
            invariant
                b <= edges@.len(),
                e == view_seq(edges@),
                valid_indices(edges@.len(), c@),
                ck == keys_at(e, c@),
                identity@ == cycle_identity(ck, fam),
                label@ == family_label(fam),
                view_seq(out@) == mid + e.take(b as int).flat_map(
                    |x: EdgeView|
                        if ck.contains(key_of(x)) {
                            seq![cycle_diag(x, ck, fam)]
                        } else {
                            seq![]
                        },
                ),
            decreases edges@.len() - b,
        {
            let edge = &edges[b];
            proof {
                assert(edge@ == e[b as int]);
                e.lemma_flat_map_take_append(
                    |x: EdgeView|
                        if ck.contains(key_of(x)) {
                            seq![cycle_diag(x, ck, fam)]
                        } else {
                            seq![]
                        },
                    b as int,
                );
            }
            if cycle_holds_key(edges, c, b) {
                let message = cat(
                    cat(
                        cat(
                            cat(cat(cat(owned(label), " relationship `"), edge.field), "` to `"),
                            edge.reference.as_str(),
                        ),
                        "` participates in cycle `",
                    ),
                    identity.as_str(),
                );
                let message = cat(message, "`");
                let remediation = cat(
                    cat(
                        cat(cat(owned("break the "), label), " relationship cycle identified by `"),
                        identity.as_str(),
                    ),
                    "`",
                );
                let d = Diagnostic::from_parts(
                    edge.path.duplicate(),
                    None,
                    owned("ARTIFACT.RELATIONSHIP.CYCLE"),
                    Severity::Error,
                    message,
                    remediation,
                );
                proof {
                    crate::copy::lemma_view_seq_push(out@, d);
                }
                out.push(d);
            } else {
                assert(view_seq(out@) =~= view_seq(out@) + Seq::<DiagView>::empty());
            }
            b = b + 1;
        }
        proof {
            assert(e.take(b as int) =~= e);
        }
        a = a + 1;
    }
    proof {
        assert(cs.take(a as int) =~= cs);
    }
}

/// The cycle findings of all families, for given listings of their cycles.
pub open spec fn cycle_report(
    s: Seq<SnapshotView>,
    parents: Seq<Seq<Key>>,
    dependencies: Seq<Seq<Key>>,
    supersessions: Seq<Seq<Key>>,
) -> Seq<DiagView> {
    sorted_by::<Diagnostic, PathMessageOrder>(
        cycle_findings(edges_of(s, CycleFamily::Parent), parents, CycleFamily::Parent)
            + cycle_findings(edges_of(s, CycleFamily::Dependency), dependencies, CycleFamily::Dependency)
            + cycle_findings(
            edges_of(s, CycleFamily::Supersession),
            supersessions,
            CycleFamily::Supersession,
        ),
    )
}

/// A listing of the cycles of a graph that names every cycle once.
pub open spec fn cycle_listing(edges: Seq<EdgeView>) -> Seq<Seq<Key>> {
    choose|c: Seq<Seq<Key>>| lists_cycles(edges, c)
}

/// The cycle findings of a repository: those of its graphs' listings. By
/// `lemma_cycle_report_order_independent`, any listings give the same.
pub open spec fn relationship_cycle_findings(s: Seq<SnapshotView>) -> Seq<DiagView> {
    cycle_report(
        s,
        cycle_listing(edges_of(s, CycleFamily::Parent)),
        cycle_listing(edges_of(s, CycleFamily::Dependency)),
        cycle_listing(edges_of(s, CycleFamily::Supersession)),
    )
}

/// Finds every distinct eligible relationship cycle in the supplied
/// snapshots and reports it on each relationship entry that forms it.
pub fn validate_relationship_cycles(snapshots: &[ArtifactSnapshot]) -> (res: Vec<Diagnostic>)
    ensures
        lists_cycles(
            edges_of(view_seq(snapshots@), CycleFamily::Parent),
            cycle_listing(edges_of(view_seq(snapshots@), CycleFamily::Parent)),
        ),
        lists_cycles(
            edges_of(view_seq(snapshots@), CycleFamily::Dependency),
            cycle_listing(edges_of(view_seq(snapshots@), CycleFamily::Dependency)),
        ),
        lists_cycles(
            edges_of(view_seq(snapshots@), CycleFamily::Supersession),
            cycle_listing(edges_of(view_seq(snapshots@), CycleFamily::Supersession)),
        ),
        view_seq(res@) == relationship_cycle_findings(view_seq(snapshots@)),
{
    let ghost s = view_seq(snapshots@);
    let mut out: Vec<Diagnostic> = Vec::new();
    let parent_edges = eligible_edges(snapshots, CycleFamily::Parent);
    let parent_cycles = find_cycles(parent_edges.as_slice());
    add_cycle_findings(parent_edges.as_slice(), &parent_cycles, CycleFamily::Parent, &mut out);
    let dependency_edges = eligible_edges(snapshots, CycleFamily::Dependency);
    let dependency_cycles = find_cycles(dependency_edges.as_slice());
    add_cycle_findings(dependency_edges.as_slice(), &dependency_cycles, CycleFamily::Dependency, &mut out);
    let supersession_edges = eligible_edges(snapshots, CycleFamily::Supersession);
    let supersession_cycles = find_cycles(supersession_edges.as_slice());
    add_cycle_findings(
        supersession_edges.as_slice(),
        &supersession_cycles,
        CycleFamily::Supersession,
        &mut out,
    );
    let ghost lp = found_keys(view_seq(parent_edges@), parent_cycles@);
    let ghost ld = found_keys(view_seq(dependency_edges@), dependency_cycles@);
    let ghost ls = found_keys(view_seq(supersession_edges@), supersession_cycles@);
    proof {
        assert(view_seq(out@) =~= cycle_findings(edges_of(s, CycleFamily::Parent), lp, CycleFamily::Parent)
            + cycle_findings(edges_of(s, CycleFamily::Dependency), ld, CycleFamily::Dependency)
            + cycle_findings(edges_of(s, CycleFamily::Supersession), ls, CycleFamily::Supersession));
    }
    let res = sort_stable::<Diagnostic, PathMessageOrder>(out);
    proof {
        assert(lists_cycles(edges_of(s, CycleFamily::Parent), lp));
        assert(lists_cycles(edges_of(s, CycleFamily::Dependency), ld));
        assert(lists_cycles(edges_of(s, CycleFamily::Supersession), ls));
        assert(view_seq(res@) == cycle_report(s, lp, ld, ls));
        lemma_cycle_report_order_independent(
            s,
            s,
            lp,
            ld,
            ls,
            cycle_listing(edges_of(s, CycleFamily::Parent)),
            cycle_listing(edges_of(s, CycleFamily::Dependency)),
            cycle_listing(edges_of(s, CycleFamily::Supersession)),
        );
    }
    res
}

// ---------------------------------------------------------------------------
// The report depends on neither the snapshot order nor the cycle listing
// ---------------------------------------------------------------------------
/// The edges of one snapshot in a family's graph.
pub open spec fn snapshot_edges(s: Seq<SnapshotView>, v: SnapshotView, fam: CycleFamily) -> Seq<EdgeView> {
    family_fields(fam).flat_map(|f: Seq<char>| field_edges(s, v, f, fam))
}

proof fn lemma_family_texts_tick_free(fam: CycleFamily)
    ensures
        forall|i: int| 0 <= i < family_fields(fam).len() ==> tick_free(#[trigger] family_fields(fam)[i]),
        tick_free(family_label(fam) + " relationship "@),
{
    reveal_strlit("parent");
    reveal_strlit("depends_on");
    reveal_strlit("requires");
    reveal_strlit("blockers");
    reveal_strlit("supersedes");
    reveal_strlit("superseded_by");
    reveal_strlit("dependency");
    reveal_strlit("supersession");
    reveal_strlit(" relationship ");
    assert(tick_free(family_label(fam)));
    assert(tick_free(" relationship "@));
    lemma_tick_free_concat(family_label(fam), " relationship "@);
}

/// An edge whose field and reference texts have no backtick.
pub open spec fn edge_tick_free(e: EdgeView) -> bool {
    tick_free(e.field) && tick_free(e.reference)
}

proof fn lemma_edges_tick_free(s: Seq<SnapshotView>, fam: CycleFamily)
    ensures
        forall|e: EdgeView| edges_of(s, fam).contains(e) ==> edge_tick_free(e),
{
    lemma_family_texts_tick_free(fam);
    let outer = |v: SnapshotView| family_fields(fam).flat_map(|f: Seq<char>| field_edges(s, v, f, fam));
    assert forall|e: EdgeView| edges_of(s, fam).contains(e) implies edge_tick_free(e) by {
        crate::order::lemma_flat_map_member(s, outer, e);
        let i = choose|i: int| 0 <= i < s.len() && #[trigger] outer(s[i]).contains(e);
        let v = s[i];
        let middle = |f: Seq<char>| field_edges(s, v, f, fam);
        crate::order::lemma_flat_map_member(family_fields(fam), middle, e);
        let j = choose|j: int| 0 <= j < family_fields(fam).len() && #[trigger] middle(family_fields(fam)[j]).contains(e);
        let f = family_fields(fam)[j];
        let source = v.id->0;
        let val = meta_get(v.metadata, f)->0;
        let inner = |r: Seq<char>| edge_for(s, v, source, f, r, fam);
        crate::order::lemma_flat_map_member(value_strings(val), inner, e);
        let k = choose|k: int| 0 <= k < value_strings(val).len() && #[trigger] inner(value_strings(val)[k]).contains(e);
        let r = value_strings(val)[k];
        lemma_reference_tick_free(r);
    }
}

/// A cycle finding on an edge whose texts have no backtick.
pub open spec fn cycle_shaped(d: DiagView) -> bool {
    exists|e: EdgeView, c: Seq<Key>, fam: CycleFamily| edge_tick_free(e) && d == #[trigger] cycle_diag(e, c, fam)
}

proof fn lemma_cycle_findings_shaped(edges: Seq<EdgeView>, cycles: Seq<Seq<Key>>, fam: CycleFamily)
    requires
        forall|e: EdgeView| edges.contains(e) ==> edge_tick_free(e),
    ensures
        forall|d: DiagView| cycle_findings(edges, cycles, fam).contains(d) ==> cycle_shaped(d),
{
    let outer = |c: Seq<Key>|
        edges.flat_map(
            |e: EdgeView|
                if c.contains(key_of(e)) {
                    seq![cycle_diag(e, c, fam)]
                } else {
                    seq![]
                },
        );
    assert forall|d: DiagView| cycle_findings(edges, cycles, fam).contains(d) implies cycle_shaped(d) by {
        crate::order::lemma_flat_map_member(cycles, outer, d);
        let i = choose|i: int| 0 <= i < cycles.len() && #[trigger] outer(cycles[i]).contains(d);
        let c = cycles[i];
        let inner = |e: EdgeView|
            if c.contains(key_of(e)) {
                seq![cycle_diag(e, c, fam)]
            } else {
                seq![]
            };
        crate::order::lemma_flat_map_member(edges, inner, d);
        let j = choose|j: int| 0 <= j < edges.len() && #[trigger] inner(edges[j]).contains(d);
        let e = edges[j];
        assert(edges.contains(e));
        assert(d == cycle_diag(e, c, fam));
    }
}

proof fn lemma_cycle_message_parts(
    a1: Seq<char>,
    f1: Seq<char>,
    r1: Seq<char>,
    i1: Seq<char>,
    a2: Seq<char>,
    f2: Seq<char>,
    r2: Seq<char>,
    i2: Seq<char>,
)
    requires
        tick_free(a1),
        tick_free(a2),
        tick_free(f1),
        tick_free(f2),
        tick_free(r1),
        tick_free(r2),
        a1 + tick() + f1 + "` to `"@ + r1 + "` participates in cycle `"@ + i1 + "`"@ == a2 + tick() + f2
            + "` to `"@ + r2 + "` participates in cycle `"@ + i2 + "`"@,
    ensures
        a1 == a2,
        i1 == i2,
{
    reveal_strlit("` to `");
    reveal_strlit("` participates in cycle `");
    reveal_strlit("`");
    reveal_strlit(" to ");
    reveal_strlit(" participates in cycle ");
    let to = " to "@ + tick();
    let part = " participates in cycle "@ + tick();
    let t1 = f1 + tick() + (to + (r1 + tick() + (part + (i1 + tick()))));
    let t2 = f2 + tick() + (to + (r2 + tick() + (part + (i2 + tick()))));
    assert(a1 + tick() + f1 + "` to `"@ + r1 + "` participates in cycle `"@ + i1 + "`"@ =~= a1 + tick() + t1);
    assert(a2 + tick() + f2 + "` to `"@ + r2 + "` participates in cycle `"@ + i2 + "`"@ =~= a2 + tick() + t2);
    lemma_tick_split(a1, t1, a2, t2);
    lemma_tick_split(f1, to + (r1 + tick() + (part + (i1 + tick()))), f2, to + (r2 + tick() + (part + (i2 + tick()))));
    lemma_cancel_prefix(to, r1 + tick() + (part + (i1 + tick())), r2 + tick() + (part + (i2 + tick())));
    lemma_tick_split(r1, part + (i1 + tick()), r2, part + (i2 + tick()));
    lemma_cancel_prefix(part, i1 + tick(), i2 + tick());
    lemma_cancel_suffix(i1, i2, tick());
}

proof fn lemma_cycle_shaped_unique(a: DiagView, b: DiagView)
    requires
        cycle_shaped(a),
        cycle_shaped(b),
        a.path == b.path,
        a.message == b.message,
    ensures
        a == b,
{
    reveal_strlit(" relationship `");
    reveal_strlit(" relationship ");
    let (e1, c1, fam1) = choose|e: EdgeView, c: Seq<Key>, fam: CycleFamily| edge_tick_free(e) && a == #[trigger] cycle_diag(e, c, fam);
    let (e2, c2, fam2) = choose|e: EdgeView, c: Seq<Key>, fam: CycleFamily| edge_tick_free(e) && b == #[trigger] cycle_diag(e, c, fam);
    lemma_family_texts_tick_free(fam1);
    lemma_family_texts_tick_free(fam2);
    let a1 = family_label(fam1) + " relationship "@;
    let a2 = family_label(fam2) + " relationship "@;
    let i1 = cycle_identity(c1, fam1);
    let i2 = cycle_identity(c2, fam2);
    assert(a.message =~= a1 + tick() + e1.field + "` to `"@ + e1.reference + "` participates in cycle `"@ + i1 + "`"@);
    assert(b.message =~= a2 + tick() + e2.field + "` to `"@ + e2.reference + "` participates in cycle `"@ + i2 + "`"@);
    lemma_cycle_message_parts(a1, e1.field, e1.reference, i1, a2, e2.field, e2.reference, i2);
    lemma_cancel_suffix(family_label(fam1), family_label(fam2), " relationship "@);
    assert(a.remediation == b.remediation);
}

proof fn lemma_edges_permutation(s1: Seq<SnapshotView>, s2: Seq<SnapshotView>, fam: CycleFamily)
    requires
        s1.to_multiset() == s2.to_multiset(),
    ensures
        edges_of(s1, fam).to_multiset() == edges_of(s2, fam).to_multiset(),
{
    crate::order::lemma_permutation_contains(s1, s2);
    assert forall|r: Seq<char>| has_target(s1, r) == has_target(s2, r) by {
        if has_target(s1, r) {
            let i = choose|i: int| 0 <= i < s1.len() && (#[trigger] s1[i]).id == Some(r);
            assert(s1.contains(s1[i]));
        }
        if has_target(s2, r) {
            let i = choose|i: int| 0 <= i < s2.len() && (#[trigger] s2[i]).id == Some(r);
            assert(s2.contains(s2[i]));
        }
    }
    assert forall|r: Seq<char>, k: ArtifactKind| target_has_kind(s1, r, k) == target_has_kind(s2, r, k) by {
        if target_has_kind(s1, r, k) {
            let i = choose|i: int| 0 <= i < s1.len() && (#[trigger] s1[i]).id == Some(r) && s1[i].kind == k;
            assert(s1.contains(s1[i]));
        }
        if target_has_kind(s2, r, k) {
            let i = choose|i: int| 0 <= i < s2.len() && (#[trigger] s2[i]).id == Some(r) && s2[i].kind == k;
            assert(s2.contains(s2[i]));
        }
    }
    assert forall|v: SnapshotView| #[trigger] snapshot_edges(s1, v, fam) == snapshot_edges(s2, v, fam) by {
        assert forall|f: Seq<char>| #[trigger] field_edges(s1, v, f, fam) == field_edges(s2, v, f, fam) by {
            match v.id {
                Some(source) => {
                    assert forall|r: Seq<char>| #[trigger] edge_for(s1, v, source, f, r, fam) == edge_for(s2, v, source, f, r, fam) by {}
                    assert((|r: Seq<char>| edge_for(s1, v, source, f, r, fam)) =~= (|r: Seq<char>| edge_for(s2, v, source, f, r, fam)));
                },
                None => {},
            }
        }
        assert((|f: Seq<char>| field_edges(s1, v, f, fam)) =~= (|f: Seq<char>| field_edges(s2, v, f, fam)));
    }
    let g = |v: SnapshotView| family_fields(fam).flat_map(|f: Seq<char>| field_edges(s1, v, f, fam));
    let g2 = |v: SnapshotView| family_fields(fam).flat_map(|f: Seq<char>| field_edges(s2, v, f, fam));
    assert forall|v: SnapshotView| #[trigger] g(v) == g2(v) by {
        assert(snapshot_edges(s1, v, fam) == snapshot_edges(s2, v, fam));
    }
    assert(g =~= g2);
    crate::order::lemma_flat_map_permutation(s1, s2, g);
}

proof fn lemma_cycles_of_permutation(e1: Seq<EdgeView>, e2: Seq<EdgeView>)
    requires
        e1.to_multiset() == e2.to_multiset(),
    ensures
        cycles_of(e1) == cycles_of(e2),
{
    crate::order::lemma_permutation_contains(e1, e2);
    assert forall|k: Key| #[trigger] is_edge_key(e1, k) == is_edge_key(e2, k) by {
        if is_edge_key(e1, k) {
            let i = choose|i: int| 0 <= i < e1.len() && key_of(#[trigger] e1[i]) == k;
            assert(e1.contains(e1[i]));
            let j = choose|j: int| 0 <= j < e2.len() && e2[j] == e1[i];
            assert(key_of(e2[j]) == k);
        }
        if is_edge_key(e2, k) {
            let i = choose|i: int| 0 <= i < e2.len() && key_of(#[trigger] e2[i]) == k;
            assert(e2.contains(e2[i]));
            let j = choose|j: int| 0 <= j < e1.len() && e1[j] == e2[i];
            assert(key_of(e1[j]) == k);
        }
    }
    assert forall|w: Seq<Key>| #[trigger] cycle_walk(e1, w) == cycle_walk(e2, w) by {}
    assert(cycles_of(e1) =~= cycles_of(e2));
}

proof fn lemma_cycle_findings_permutation(
    e1: Seq<EdgeView>,
    e2: Seq<EdgeView>,
    c1: Seq<Seq<Key>>,
    c2: Seq<Seq<Key>>,
    fam: CycleFamily,
)
    requires
        e1.to_multiset() == e2.to_multiset(),
        lists_cycles(e1, c1),
        lists_cycles(e2, c2),
    ensures
        cycle_findings(e1, c1, fam).to_multiset() == cycle_findings(e2, c2, fam).to_multiset(),
{
    lemma_cycles_of_permutation(e1, e2);
    crate::order::lemma_no_duplicates_permutation(c1, c2);
    let h = |c: Seq<Key>| |e: EdgeView|
        if c.contains(key_of(e)) {
            seq![cycle_diag(e, c, fam)]
        } else {
            seq![]
        };
    let g1 = |c: Seq<Key>| e1.flat_map(h(c));
    let g2 = |c: Seq<Key>| e2.flat_map(h(c));
    assert forall|c: Seq<Key>| #[trigger] g1(c).to_multiset() == g2(c).to_multiset() by {
        crate::order::lemma_flat_map_permutation(e1, e2, h(c));
    }
    assert(cycle_findings(e1, c1, fam) == c1.flat_map(g1)) by {
        assert(g1 =~= (|c: Seq<Key>|
            e1.flat_map(
                |e: EdgeView|
                    if c.contains(key_of(e)) {
                        seq![cycle_diag(e, c, fam)]
                    } else {
                        seq![]
                    },
            )));
    }
    assert(cycle_findings(e2, c2, fam) == c2.flat_map(g2)) by {
        assert(g2 =~= (|c: Seq<Key>|
            e2.flat_map(
                |e: EdgeView|
                    if c.contains(key_of(e)) {
                        seq![cycle_diag(e, c, fam)]
                    } else {
                        seq![]
                    },
            )));
    }
    crate::order::lemma_flat_map_permutation(c1, c2, g1);
    crate::order::lemma_flat_map_pointwise(c2, g1, g2);
}

/// The cycle findings of a repository depend neither on the order of its
/// snapshots nor on the order in which the cycles of each graph are listed:
/// for permutations of one another, and for any listings of each graph's
/// cycles that name every cycle once, the findings are the same, in the same
/// order.
pub proof fn lemma_cycle_report_order_independent(
    s1: Seq<SnapshotView>,
    s2: Seq<SnapshotView>,
    parents1: Seq<Seq<Key>>,
    dependencies1: Seq<Seq<Key>>,
    supersessions1: Seq<Seq<Key>>,
    parents2: Seq<Seq<Key>>,
    dependencies2: Seq<Seq<Key>>,
    supersessions2: Seq<Seq<Key>>,
)
    requires
        s1.to_multiset() == s2.to_multiset(),
        lists_cycles(edges_of(s1, CycleFamily::Parent), parents1),
        lists_cycles(edges_of(s1, CycleFamily::Dependency), dependencies1),
        lists_cycles(edges_of(s1, CycleFamily::Supersession), supersessions1),
        lists_cycles(edges_of(s2, CycleFamily::Parent), parents2),
        lists_cycles(edges_of(s2, CycleFamily::Dependency), dependencies2),
        lists_cycles(edges_of(s2, CycleFamily::Supersession), supersessions2),
    ensures
        cycle_report(s1, parents1, dependencies1, supersessions1) == cycle_report(
            s2,
            parents2,
            dependencies2,
            supersessions2,
        ),
{
    let (p, d, u) = (CycleFamily::Parent, CycleFamily::Dependency, CycleFamily::Supersession);
    lemma_edges_permutation(s1, s2, p);
    lemma_edges_permutation(s1, s2, d);
    lemma_edges_permutation(s1, s2, u);
    let fp1 = cycle_findings(edges_of(s1, p), parents1, p);
    let fd1 = cycle_findings(edges_of(s1, d), dependencies1, d);
    let fu1 = cycle_findings(edges_of(s1, u), supersessions1, u);
    let fp2 = cycle_findings(edges_of(s2, p), parents2, p);
    let fd2 = cycle_findings(edges_of(s2, d), dependencies2, d);
    let fu2 = cycle_findings(edges_of(s2, u), supersessions2, u);
    lemma_cycle_findings_permutation(edges_of(s1, p), edges_of(s2, p), parents1, parents2, p);
    lemma_cycle_findings_permutation(edges_of(s1, d), edges_of(s2, d), dependencies1, dependencies2, d);
    lemma_cycle_findings_permutation(edges_of(s1, u), edges_of(s2, u), supersessions1, supersessions2, u);
    let all1 = fp1 + fd1 + fu1;
    let all2 = fp2 + fd2 + fu2;
    lemma_multiset_commutative(fp1 + fd1, fu1);
    lemma_multiset_commutative(fp1, fd1);
    lemma_multiset_commutative(fp2 + fd2, fu2);
    lemma_multiset_commutative(fp2, fd2);
    assert(all1.to_multiset() == all2.to_multiset());
    lemma_edges_tick_free(s1, p);
    lemma_edges_tick_free(s1, d);
    lemma_edges_tick_free(s1, u);
    lemma_cycle_findings_shaped(edges_of(s1, p), parents1, p);
    lemma_cycle_findings_shaped(edges_of(s1, d), dependencies1, d);
    lemma_cycle_findings_shaped(edges_of(s1, u), supersessions1, u);
    assert forall|x: DiagView| all1.contains(x) implies cycle_shaped(x) by {
        let k = choose|k: int| 0 <= k < all1.len() && all1[k] == x;
        if k < fp1.len() {
            assert(fp1[k] == x);
        } else if k < fp1.len() + fd1.len() {
            assert(fd1[k - fp1.len()] == x);
        } else {
            assert(fu1[k - fp1.len() - fd1.len()] == x);
        }
    }
    assert forall|a: DiagView, b: DiagView|
        all1.contains(a) && all1.contains(b) && !path_message_lt(a, b) && !path_message_lt(b, a) implies a == b by {
        lemma_lex_lt_facts(a.path, b.path, a.path);
        lemma_lex_lt_facts(a.message, b.message, a.message);
        lemma_cycle_shaped_unique(a, b);
    }
    crate::order::lemma_sorted_by_order_independent::<Diagnostic, PathMessageOrder>(all1, all2);
}

/// The walk `w` started at its `k`-th edge.
pub open spec fn rotation(w: Seq<Key>, k: int) -> Seq<Key> {
    w.skip(k) + w.take(k)
}

/// A cycle is listed from one start only: no proper rotation of a cycle is
/// itself a cycle, so the same directed cycle reached from another artifact
/// is never reported twice.
pub proof fn lemma_cycle_rotation_unique(edges: Seq<EdgeView>, w: Seq<Key>, k: int)
    requires
        cycle_walk(edges, w),
        0 < k < w.len(),
    ensures
        !cycle_walk(edges, rotation(w, k)),
{
    let r = rotation(w, k);
    if cycle_walk(edges, r) {
        let n = w.len();
        assert(r[0] == w[k]);
        assert(r[n - k - 1] == w[n - 1]);
        assert(w[k - 1].2 == w[k].0);
        assert(lex_lt(w[0].0, w[k - 1].2));
        assert(lex_lt(r[0].0, r[n - k - 1].2));
        lemma_lex_lt_facts(w[0].0, w[k].0, w[0].0);
    }
}

proof fn lemma_family_findings_iff_cycle(edges: Seq<EdgeView>, cycles: Seq<Seq<Key>>, fam: CycleFamily)
    requires
        lists_cycles(edges, cycles),
    ensures
        cycle_findings(edges, cycles, fam).len() > 0 <==> exists|w: Seq<Key>| cycle_walk(edges, w),
{
    let inner = |c: Seq<Key>| |e: EdgeView|
        if c.contains(key_of(e)) {
            seq![cycle_diag(e, c, fam)]
        } else {
            seq![]
        };
    let outer = |c: Seq<Key>| edges.flat_map(inner(c));
    assert(cycle_findings(edges, cycles, fam) == cycles.flat_map(outer)) by {
        assert(outer =~= (|c: Seq<Key>|
            edges.flat_map(
                |e: EdgeView|
                    if c.contains(key_of(e)) {
                        seq![cycle_diag(e, c, fam)]
                    } else {
                        seq![]
                    },
            )));
    }
    let all = cycles.flat_map(outer);
    if exists|w: Seq<Key>| cycle_walk(edges, w) {
        let w = choose|w: Seq<Key>| cycle_walk(edges, w);
        assert(cycles_of(edges).contains(w));
        assert(cycles.to_set().contains(w));
        assert(is_edge_key(edges, w[0]));
        let i = choose|i: int| 0 <= i < edges.len() && key_of(#[trigger] edges[i]) == w[0];
        assert(w.contains(key_of(edges[i])));
        let d = cycle_diag(edges[i], w, fam);
        assert(inner(w)(edges[i]) == seq![d]);
        assert(inner(w)(edges[i]).contains(d)) by {
            assert(inner(w)(edges[i])[0] == d);
        }
        assert(edges.contains(edges[i]));
        crate::order::lemma_flat_map_has(edges, inner(w), edges[i], d);
        crate::order::lemma_flat_map_has(cycles, outer, w, d);
    }
    if all.len() > 0 {
        let d = all[0];
        assert(all.contains(d));
        crate::order::lemma_flat_map_member(cycles, outer, d);
        let k = choose|k: int| 0 <= k < cycles.len() && #[trigger] outer(cycles[k]).contains(d);
        assert(cycles.contains(cycles[k]));
        assert(cycles.to_set().contains(cycles[k]));
        assert(cycle_walk(edges, cycles[k]));
    }
}

/// The cycle findings of a repository are not empty exactly when one of its
/// graphs has a cycle.
pub proof fn lemma_cycle_findings_iff_cycle(
    s: Seq<SnapshotView>,
    parents: Seq<Seq<Key>>,
    dependencies: Seq<Seq<Key>>,
    supersessions: Seq<Seq<Key>>,
)
    requires
        lists_cycles(edges_of(s, CycleFamily::Parent), parents),
        lists_cycles(edges_of(s, CycleFamily::Dependency), dependencies),
        lists_cycles(edges_of(s, CycleFamily::Supersession), supersessions),
    ensures
        cycle_report(s, parents, dependencies, supersessions).len() > 0 <==> exists|
            fam: CycleFamily,
            w: Seq<Key>,
        | cycle_walk(edges_of(s, fam), w),
{
    let (p, d, u) = (CycleFamily::Parent, CycleFamily::Dependency, CycleFamily::Supersession);
    let all = cycle_findings(edges_of(s, p), parents, p) + cycle_findings(edges_of(s, d), dependencies, d)
        + cycle_findings(edges_of(s, u), supersessions, u);
    crate::order::lemma_sorted_by_permutation::<Diagnostic, PathMessageOrder>(all);
    lemma_family_findings_iff_cycle(edges_of(s, p), parents, p);
    lemma_family_findings_iff_cycle(edges_of(s, d), dependencies, d);
    lemma_family_findings_iff_cycle(edges_of(s, u), supersessions, u);
    if exists|fam: CycleFamily, w: Seq<Key>| cycle_walk(edges_of(s, fam), w) {
        let (fam, w) = choose|fam: CycleFamily, w: Seq<Key>| cycle_walk(edges_of(s, fam), w);
        match fam {
            CycleFamily::Parent => assert(cycle_walk(edges_of(s, p), w)),
            CycleFamily::Dependency => assert(cycle_walk(edges_of(s, d), w)),
            CycleFamily::Supersession => assert(cycle_walk(edges_of(s, u), w)),
        }
    }
    if cycle_findings(edges_of(s, p), parents, p).len() > 0 {
        let w = choose|w: Seq<Key>| cycle_walk(edges_of(s, p), w);
        assert(cycle_walk(edges_of(s, p), w));
    }
    if cycle_findings(edges_of(s, d), dependencies, d).len() > 0 {
        let w = choose|w: Seq<Key>| cycle_walk(edges_of(s, d), w);
        assert(cycle_walk(edges_of(s, d), w));
    }
    if cycle_findings(edges_of(s, u), supersessions, u).len() > 0 {
        let w = choose|w: Seq<Key>| cycle_walk(edges_of(s, u), w);
        assert(cycle_walk(edges_of(s, u), w));
    }
}

/// Every edge of a graph lies on the path of a snapshot that has an
/// identifier.
proof fn lemma_edge_origin(s: Seq<SnapshotView>, fam: CycleFamily, e: EdgeView)
    requires
        edges_of(s, fam).contains(e),
    ensures
        exists|i: int| 0 <= i < s.len() && (#[trigger] s[i]).path == e.path && s[i].id is Some,
{
    let outer = |v: SnapshotView| family_fields(fam).flat_map(|f: Seq<char>| field_edges(s, v, f, fam));
    crate::order::lemma_flat_map_member(s, outer, e);
    let i = choose|i: int| 0 <= i < s.len() && #[trigger] outer(s[i]).contains(e);
    let v = s[i];
    let middle = |f: Seq<char>| field_edges(s, v, f, fam);
    crate::order::lemma_flat_map_member(family_fields(fam), middle, e);
    let j = choose|j: int| 0 <= j < family_fields(fam).len() && #[trigger] middle(family_fields(fam)[j]).contains(e);
    let f = family_fields(fam)[j];
    let source = v.id->0;
    let val = meta_get(v.metadata, f)->0;
    let inner = |r: Seq<char>| edge_for(s, v, source, f, r, fam);
    crate::order::lemma_flat_map_member(value_strings(val), inner, e);
    let k = choose|k: int| 0 <= k < value_strings(val).len() && #[trigger] inner(value_strings(val)[k]).contains(e);
    assert(s[i].path == e.path && s[i].id is Some);
}

proof fn lemma_family_findings_origin(s: Seq<SnapshotView>, cycles: Seq<Seq<Key>>, fam: CycleFamily, d: DiagView)
    requires
        cycle_findings(edges_of(s, fam), cycles, fam).contains(d),
    ensures
        d.rule == "ARTIFACT.RELATIONSHIP.CYCLE"@,
        d.severity == Severity::Error,
        exists|i: int| 0 <= i < s.len() && (#[trigger] s[i]).path == d.path && s[i].id is Some,
{
    let edges = edges_of(s, fam);
    let outer = |c: Seq<Key>|
        edges.flat_map(
            |e: EdgeView|
                if c.contains(key_of(e)) {
                    seq![cycle_diag(e, c, fam)]
                } else {
                    seq![]
                },
        );
    crate::order::lemma_flat_map_member(cycles, outer, d);
    let i = choose|i: int| 0 <= i < cycles.len() && #[trigger] outer(cycles[i]).contains(d);
    let c = cycles[i];
    let inner = |e: EdgeView|
        if c.contains(key_of(e)) {
            seq![cycle_diag(e, c, fam)]
        } else {
            seq![]
        };
    crate::order::lemma_flat_map_member(edges, inner, d);
    let j = choose|j: int| 0 <= j < edges.len() && #[trigger] inner(edges[j]).contains(d);
    let e = edges[j];
    assert(edges.contains(e));
    assert(d == cycle_diag(e, c, fam));
    lemma_edge_origin(s, fam, e);
}

/// Every cycle finding of a repository is an error of the cycle rule on the
/// path of a snapshot that has an identifier; the findings come sorted by
/// path and message; and a repository without snapshots has none.
pub proof fn lemma_cycle_findings_shape(s: Seq<SnapshotView>)
    ensures
        is_sorted::<Diagnostic, PathMessageOrder>(relationship_cycle_findings(s)),
        forall|d: DiagView|
            #[trigger] relationship_cycle_findings(s).contains(d) ==> {
                &&& d.rule == "ARTIFACT.RELATIONSHIP.CYCLE"@
                &&& d.severity == Severity::Error
                &&& exists|i: int| 0 <= i < s.len() && (#[trigger] s[i]).path == d.path && s[i].id is Some
            },
        s.len() == 0 ==> relationship_cycle_findings(s).len() == 0,
{
    broadcast use vstd::seq_lib::group_to_multiset_ensures;

    let (p, dp, u) = (CycleFamily::Parent, CycleFamily::Dependency, CycleFamily::Supersession);
    let fp = cycle_findings(edges_of(s, p), cycle_listing(edges_of(s, p)), p);
    let fd = cycle_findings(edges_of(s, dp), cycle_listing(edges_of(s, dp)), dp);
    let fu = cycle_findings(edges_of(s, u), cycle_listing(edges_of(s, u)), u);
    let all = fp + fd + fu;
    assert(relationship_cycle_findings(s) == sorted_by::<Diagnostic, PathMessageOrder>(all));
    crate::order::lemma_sorted_by_sorted::<Diagnostic, PathMessageOrder>(all);
    crate::order::lemma_sorted_by_permutation::<Diagnostic, PathMessageOrder>(all);
    assert forall|d: DiagView| #[trigger] relationship_cycle_findings(s).contains(d) implies {
        &&& d.rule == "ARTIFACT.RELATIONSHIP.CYCLE"@
        &&& d.severity == Severity::Error
        &&& exists|i: int| 0 <= i < s.len() && (#[trigger] s[i]).path == d.path && s[i].id is Some
    } by {
        assert(relationship_cycle_findings(s).to_multiset().count(d) > 0);
        assert(all.contains(d));
        let k = choose|k: int| 0 <= k < all.len() && all[k] == d;
        if k < fp.len() {
            assert(fp[k] == d);
            lemma_family_findings_origin(s, cycle_listing(edges_of(s, p)), p, d);
        } else if k < fp.len() + fd.len() {
            assert(fd[k - fp.len()] == d);
            lemma_family_findings_origin(s, cycle_listing(edges_of(s, dp)), dp, d);
        } else {
            assert(fu[k - fp.len() - fd.len()] == d);
            lemma_family_findings_origin(s, cycle_listing(edges_of(s, u)), u, d);
        }
    }
    if s.len() == 0 && relationship_cycle_findings(s).len() > 0 {
        assert(relationship_cycle_findings(s).contains(relationship_cycle_findings(s)[0]));
    }
}

// ---------------------------------------------------------------------------
// Dependency links of any kinds form the dependency graph
// ---------------------------------------------------------------------------
proof fn lemma_dependency_fields_distinct()
    ensures
        "depends_on"@ != "parent"@,
        "requires"@ != "parent"@,
        "blockers"@ != "parent"@,
        "depends_on"@ != "epic"@,
        "requires"@ != "epic"@,
        "blockers"@ != "epic"@,
        "depends_on"@ != "supersedes"@,
        "requires"@ != "supersedes"@,
        "blockers"@ != "supersedes"@,
        "depends_on"@ != "superseded_by"@,
        "requires"@ != "superseded_by"@,
        "blockers"@ != "superseded_by"@,
{
    reveal_strlit("parent");
    reveal_strlit("epic");
    reveal_strlit("depends_on");
    reveal_strlit("requires");
    reveal_strlit("blockers");
    reveal_strlit("supersedes");
    reveal_strlit("superseded_by");
    assert("depends_on"@.len() != "parent"@.len());
    assert("requires"@[0] != "parent"@[0]);
    assert("blockers"@.len() != "parent"@.len());
    assert("depends_on"@.len() != "epic"@.len());
    assert("requires"@.len() != "epic"@.len());
    assert("blockers"@.len() != "epic"@.len());
    assert("depends_on"@[0] != "supersedes"@[0]);
    assert("requires"@[0] != "supersedes"@[0]);
    assert("blockers"@[0] != "supersedes"@[0]);
    assert("depends_on"@[0] != "superseded_by"@[0]);
    assert("requires"@[0] != "superseded_by"@[0]);
    assert("blockers"@[0] != "superseded_by"@[0]);
}

/// Every `depends_on`, `requires` or `blockers` entry of an identified
/// artifact, held as a sequence, whose concrete reference names a recognized
/// artifact of any kind, is an edge of the dependency graph from the
/// artifact to the reference.
pub proof fn lemma_dependency_edge(
    s: Seq<SnapshotView>,
    i: int,
    field: Seq<char>,
    xs: Seq<Seq<char>>,
    r: Seq<char>,
    t: int,
)
    requires
        0 <= i < s.len(),
        s[i].id is Some,
        field == "depends_on"@ || field == "requires"@ || field == "blockers"@,
        meta_get(s[i].metadata, field) == Some(MValue::Sequence(xs)),
        xs.contains(r),
        is_concrete_reference(r),
        0 <= t < s.len(),
        s[t].id == Some(r),
    ensures
        edges_of(s, CycleFamily::Dependency).contains(
            EdgeView { source: s[i].id->0, target: r, path: s[i].path, field, reference: r },
        ),
{
    lemma_dependency_fields_distinct();
    let fam = CycleFamily::Dependency;
    let v = s[i];
    let source = v.id->0;
    let val = MValue::Sequence(xs);
    let e = EdgeView { source, target: r, path: v.path, field, reference: r };
    assert(has_target(s, r));
    assert(policy_of(v.kind, field) == RelationshipPolicy::Any);
    assert(cycle_shape(field, val));
    assert(edge_for(s, v, source, field, r, fam) == seq![e]);
    assert(edge_for(s, v, source, field, r, fam)[0] == e);
    let inner = |q: Seq<char>| edge_for(s, v, source, field, q, fam);
    assert(value_strings(val) == xs);
    crate::order::lemma_flat_map_has(value_strings(val), inner, r, e);
    assert(field_edges(s, v, field, fam).contains(e));
    let ff = family_fields(fam);
    assert(ff[0] == "depends_on"@ && ff[1] == "requires"@ && ff[2] == "blockers"@);
    assert(ff.contains(field));
    let middle = |f: Seq<char>| field_edges(s, v, f, fam);
    crate::order::lemma_flat_map_has(ff, middle, field, e);
    let outer = |w: SnapshotView| family_fields(fam).flat_map(|f: Seq<char>| field_edges(s, w, f, fam));
    assert(s.contains(v));
    crate::order::lemma_flat_map_has(s, outer, v, e);
}

/// The cycle of two artifacts that name each other, written from the
/// smaller identifier.
pub open spec fn two_cycle(a: Seq<char>, fa: Seq<char>, b: Seq<char>, fb: Seq<char>) -> Seq<Key> {
    if lex_lt(a, b) {
        seq![(a, fa, b), (b, fb, a)]
    } else {
        seq![(b, fb, a), (a, fa, b)]
    }
}

/// Two identified artifacts, of whatever kinds, that depend on each other
/// through `depends_on`, `requires` or `blockers` form a dependency cycle,
/// and each of the two entries gets a cycle error that names it.
#[verifier::rlimit(60)]
#[verifier::spinoff_prover]
pub proof fn lemma_mutual_dependency_reported(
    s: Seq<SnapshotView>,
    i: int,
    j: int,
    fi: Seq<char>,
    fj: Seq<char>,
    xs: Seq<Seq<char>>,
    ys: Seq<Seq<char>>,
)
    requires
        0 <= i < s.len(),
        0 <= j < s.len(),
        s[i].id is Some,
        s[j].id is Some,
        s[i].id != s[j].id,
        fi == "depends_on"@ || fi == "requires"@ || fi == "blockers"@,
        fj == "depends_on"@ || fj == "requires"@ || fj == "blockers"@,
        meta_get(s[i].metadata, fi) == Some(MValue::Sequence(xs)),
        meta_get(s[j].metadata, fj) == Some(MValue::Sequence(ys)),
        xs.contains(s[j].id->0),
        ys.contains(s[i].id->0),
        is_concrete_reference(s[i].id->0),
        is_concrete_reference(s[j].id->0),
        lists_cycles(
            edges_of(s, CycleFamily::Dependency),
            cycle_listing(edges_of(s, CycleFamily::Dependency)),
        ),
    ensures
        relationship_cycle_findings(s).contains(
            cycle_diag(
                EdgeView {
                    source: s[i].id->0,
                    target: s[j].id->0,
                    path: s[i].path,
                    field: fi,
                    reference: s[j].id->0,
                },
                two_cycle(s[i].id->0, fi, s[j].id->0, fj),
                CycleFamily::Dependency,
            ),
        ),
        relationship_cycle_findings(s).contains(
            cycle_diag(
                EdgeView {
                    source: s[j].id->0,
                    target: s[i].id->0,
                    path: s[j].path,
                    field: fj,
                    reference: s[i].id->0,
                },
                two_cycle(s[i].id->0, fi, s[j].id->0, fj),
                CycleFamily::Dependency,
            ),
        ),
{
    let fam = CycleFamily::Dependency;
    let a = s[i].id->0;
    let b = s[j].id->0;
    let edges = edges_of(s, fam);
    let listing = cycle_listing(edges);
    let ei = EdgeView { source: a, target: b, path: s[i].path, field: fi, reference: b };
    let ej = EdgeView { source: b, target: a, path: s[j].path, field: fj, reference: a };
    lemma_dependency_edge(s, i, fi, xs, b, j);
    lemma_dependency_edge(s, j, fj, ys, a, i);
    let w = two_cycle(a, fi, b, fj);
    lemma_lex_lt_facts(a, b, a);
    let pi = choose|p: int| 0 <= p < edges.len() && edges[p] == ei;
    let pj = choose|p: int| 0 <= p < edges.len() && edges[p] == ej;
    assert(key_of(edges[pi]) == (a, fi, b));
    assert(key_of(edges[pj]) == (b, fj, a));
    assert(is_edge_key(edges, (a, fi, b)));
    assert(is_edge_key(edges, (b, fj, a)));
    assert(cycle_walk(edges, w));
    assert(cycles_of(edges).contains(w));
    assert(listing.to_set().contains(w));
    assert(listing.contains(w));
    let inner = |c: Seq<Key>| |e: EdgeView|
        if c.contains(key_of(e)) {
            seq![cycle_diag(e, c, fam)]
        } else {
            seq![]
        };
    let outer = |c: Seq<Key>| edges.flat_map(inner(c));
    assert(cycle_findings(edges, listing, fam) == listing.flat_map(outer)) by {
        assert(outer =~= (|c: Seq<Key>|
            edges.flat_map(
                |e: EdgeView|
                    if c.contains(key_of(e)) {
                        seq![cycle_diag(e, c, fam)]
                    } else {
                        seq![]
                    },
            )));
    }
    let fp = cycle_findings(
        edges_of(s, CycleFamily::Parent),
        cycle_listing(edges_of(s, CycleFamily::Parent)),
        CycleFamily::Parent,
    );
    let fu = cycle_findings(
        edges_of(s, CycleFamily::Supersession),
        cycle_listing(edges_of(s, CycleFamily::Supersession)),
        CycleFamily::Supersession,
    );
    let fd = cycle_findings(edges, listing, fam);
    let all = fp + fd + fu;
    assert(relationship_cycle_findings(s) == sorted_by::<Diagnostic, PathMessageOrder>(all));
    assert(w.contains(key_of(ei))) by {
        if lex_lt(a, b) {
            assert(w[0] == key_of(ei));
        } else {
            assert(w[1] == key_of(ei));
        }
    }
    assert(w.contains(key_of(ej))) by {
        if lex_lt(a, b) {
            assert(w[1] == key_of(ej));
        } else {
            assert(w[0] == key_of(ej));
        }
    }
    let di = cycle_diag(ei, w, fam);
    let dj = cycle_diag(ej, w, fam);
    assert(inner(w)(ei) == seq![di]);
    assert(inner(w)(ei).contains(di)) by {
        assert(inner(w)(ei)[0] == di);
    }
    assert(inner(w)(ej) == seq![dj]);
    assert(inner(w)(ej).contains(dj)) by {
        assert(inner(w)(ej)[0] == dj);
    }
    crate::order::lemma_flat_map_has(edges, inner(w), ei, di);
    crate::order::lemma_flat_map_has(listing, outer, w, di);
    crate::order::lemma_flat_map_has(edges, inner(w), ej, dj);
    crate::order::lemma_flat_map_has(listing, outer, w, dj);
    let mi = choose|m: int| 0 <= m < fd.len() && fd[m] == di;
    let mj = choose|m: int| 0 <= m < fd.len() && fd[m] == dj;
    assert(all[fp.len() + mi] == di);
    assert(all[fp.len() + mj] == dj);
    crate::order::lemma_sorted_by_contains::<Diagnostic, PathMessageOrder>(all, di);
    crate::order::lemma_sorted_by_contains::<Diagnostic, PathMessageOrder>(all, dj);
}

// ---------------------------------------------------------------------------
// The graphs hold exactly the eligible relationship entries
// ---------------------------------------------------------------------------
proof fn lemma_edge_unfold(s: Seq<SnapshotView>, fam: CycleFamily, e: EdgeView)
    requires
        edges_of(s, fam).contains(e),
    ensures
        exists|i: int, f: Seq<char>, r: Seq<char>|
            0 <= i < s.len() && s[i].id is Some && family_fields(fam).contains(f) && meta_get(
                s[i].metadata,
                f,
            ) is Some && cycle_shape(f, meta_get(s[i].metadata, f)->0) && policy_of(s[i].kind, f)
                != RelationshipPolicy::Ignore && value_strings(meta_get(s[i].metadata, f)->0).contains(r)
                && #[trigger] edge_for(s, s[i], s[i].id->0, f, r, fam).contains(e),
{
    let outer = |v: SnapshotView| family_fields(fam).flat_map(|f: Seq<char>| field_edges(s, v, f, fam));
    crate::order::lemma_flat_map_member(s, outer, e);
    let i = choose|i: int| 0 <= i < s.len() && #[trigger] outer(s[i]).contains(e);
    let v = s[i];
    let middle = |f: Seq<char>| field_edges(s, v, f, fam);
    crate::order::lemma_flat_map_member(family_fields(fam), middle, e);
    let j = choose|j: int| 0 <= j < family_fields(fam).len() && #[trigger] middle(family_fields(fam)[j]).contains(e);
    let f = family_fields(fam)[j];
    assert(family_fields(fam).contains(f));
    let source = v.id->0;
    let val = meta_get(v.metadata, f)->0;
    let inner = |r: Seq<char>| edge_for(s, v, source, f, r, fam);
    crate::order::lemma_flat_map_member(value_strings(val), inner, e);
    let k = choose|k: int| 0 <= k < value_strings(val).len() && #[trigger] inner(value_strings(val)[k]).contains(e);
    let r = value_strings(val)[k];
    assert(value_strings(val).contains(r));
    assert(edge_for(s, s[i], s[i].id->0, f, r, fam).contains(e));
}

proof fn lemma_edge_fold(s: Seq<SnapshotView>, fam: CycleFamily, i: int, f: Seq<char>, r: Seq<char>, e: EdgeView)
    requires
        0 <= i < s.len(),
        s[i].id is Some,
        family_fields(fam).contains(f),
        meta_get(s[i].metadata, f) is Some,
        cycle_shape(f, meta_get(s[i].metadata, f)->0),
        policy_of(s[i].kind, f) != RelationshipPolicy::Ignore,
        value_strings(meta_get(s[i].metadata, f)->0).contains(r),
        edge_for(s, s[i], s[i].id->0, f, r, fam).contains(e),
    ensures
        edges_of(s, fam).contains(e),
{
    let v = s[i];
    let source = v.id->0;
    let val = meta_get(v.metadata, f)->0;
    let inner = |q: Seq<char>| edge_for(s, v, source, f, q, fam);
    crate::order::lemma_flat_map_has(value_strings(val), inner, r, e);
    assert(field_edges(s, v, f, fam).contains(e));
    let middle = |g: Seq<char>| field_edges(s, v, g, fam);
    crate::order::lemma_flat_map_has(family_fields(fam), middle, f, e);
    let outer = |w: SnapshotView| family_fields(fam).flat_map(|g: Seq<char>| field_edges(s, w, g, fam));
    assert(s.contains(v));
    crate::order::lemma_flat_map_has(s, outer, v, e);
}

proof fn lemma_cycle_fields_distinct()
    ensures
        "parent"@ != "depends_on"@,
        "parent"@ != "requires"@,
        "parent"@ != "blockers"@,
        "parent"@ != "supersedes"@,
        "parent"@ != "superseded_by"@,
        "parent"@ != "epic"@,
        "parent"@ != "related"@,
        "supersedes"@ != "superseded_by"@,
        "supersedes"@ != "depends_on"@,
        "supersedes"@ != "requires"@,
        "supersedes"@ != "blockers"@,
        "supersedes"@ != "epic"@,
        "supersedes"@ != "related"@,
        "superseded_by"@ != "depends_on"@,
        "superseded_by"@ != "requires"@,
        "superseded_by"@ != "blockers"@,
        "superseded_by"@ != "epic"@,
        "superseded_by"@ != "related"@,
{
    lemma_dependency_fields_distinct();
    reveal_strlit("parent");
    reveal_strlit("epic");
    reveal_strlit("related");
    reveal_strlit("supersedes");
    reveal_strlit("superseded_by");
    assert("parent"@.len() != "epic"@.len());
    assert("parent"@[0] != "related"@[0]);
    assert("supersedes"@.len() != "superseded_by"@.len());
    assert("supersedes"@.len() != "epic"@.len());
    assert("supersedes"@[0] != "related"@[0]);
    assert("superseded_by"@.len() != "epic"@.len());
    assert("superseded_by"@[0] != "related"@[0]);
}

/// An edge is an entry of the dependency graph: a `depends_on`, `requires`
/// or `blockers` sequence of an identified artifact names a recognized
/// artifact, of any kind, by a concrete reference.
pub open spec fn dependency_entry(s: Seq<SnapshotView>, e: EdgeView) -> bool {
    &&& e.field == "depends_on"@ || e.field == "requires"@ || e.field == "blockers"@
    &&& e.reference == e.target
    &&& is_concrete_reference(e.target)
    &&& exists|t: int| 0 <= t < s.len() && (#[trigger] s[t]).id == Some(e.target)
    &&& exists|i: int|
        0 <= i < s.len() && (#[trigger] s[i]).id == Some(e.source) && s[i].path == e.path && (meta_get(
            s[i].metadata,
            e.field,
        ) matches Some(MValue::Sequence(xs)) && xs.contains(e.target))
}

/// An edge is an entry of the parent graph: the `parent` scalar of an
/// identified epic or user story names a PRD, or that of requirements, a
/// design or a task list names a user story, by a concrete reference.
pub open spec fn parent_entry(s: Seq<SnapshotView>, e: EdgeView) -> bool {
    &&& e.field == "parent"@
    &&& e.reference == e.target
    &&& is_concrete_reference(e.target)
    &&& exists|i: int|
        0 <= i < s.len() && (#[trigger] s[i]).id == Some(e.source) && s[i].path == e.path && meta_get(
            s[i].metadata,
            e.field,
        ) == Some(MValue::Scalar(e.target)) && {
            ||| (s[i].kind == ArtifactKind::Epic || s[i].kind == ArtifactKind::UserStory) && exists|t: int|
                0 <= t < s.len() && (#[trigger] s[t]).id == Some(e.target) && s[t].kind == ArtifactKind::Prd
            ||| (s[i].kind == ArtifactKind::Requirements || s[i].kind == ArtifactKind::Design || s[i].kind
                == ArtifactKind::Task) && exists|t: int|
                0 <= t < s.len() && (#[trigger] s[t]).id == Some(e.target) && s[t].kind
                    == ArtifactKind::UserStory
        }
}

/// An edge is an entry of the supersession graph: the `supersedes` or
/// `superseded_by` scalar of an identified artifact names an artifact of
/// its own kind by a concrete reference; `supersedes` runs from the
/// artifact to the reference and `superseded_by` from the reference to the
/// artifact.
pub open spec fn supersession_entry(s: Seq<SnapshotView>, e: EdgeView) -> bool {
    &&& is_concrete_reference(e.reference)
    &&& exists|i: int|
        0 <= i < s.len() && (#[trigger] s[i]).id is Some && s[i].path == e.path && meta_get(
            s[i].metadata,
            e.field,
        ) == Some(MValue::Scalar(e.reference)) && (exists|t: int|
            0 <= t < s.len() && (#[trigger] s[t]).id == Some(e.reference) && s[t].kind == s[i].kind) && {
            ||| e.field == "supersedes"@ && e.source == s[i].id->0 && e.target == e.reference
            ||| e.field == "superseded_by"@ && e.source == e.reference && e.target == s[i].id->0
        }
}

/// The dependency graph holds exactly the dependency entries.
pub proof fn lemma_dependency_edges_exact(s: Seq<SnapshotView>, e: EdgeView)
    ensures
        edges_of(s, CycleFamily::Dependency).contains(e) <==> dependency_entry(s, e),
{
    let fam = CycleFamily::Dependency;
    lemma_cycle_fields_distinct();
    if edges_of(s, fam).contains(e) {
        lemma_edge_unfold(s, fam, e);
        let (i, f, r) = choose|i: int, f: Seq<char>, r: Seq<char>|
            0 <= i < s.len() && s[i].id is Some && family_fields(fam).contains(f) && meta_get(
                s[i].metadata,
                f,
            ) is Some && cycle_shape(f, meta_get(s[i].metadata, f)->0) && policy_of(s[i].kind, f)
                != RelationshipPolicy::Ignore && value_strings(meta_get(s[i].metadata, f)->0).contains(r)
                && #[trigger] edge_for(s, s[i], s[i].id->0, f, r, fam).contains(e);
        let ff = family_fields(fam);
        let q = choose|q: int| 0 <= q < ff.len() && ff[q] == f;
        assert(f == "depends_on"@ || f == "requires"@ || f == "blockers"@);
        let ed = edge_for(s, s[i], s[i].id->0, f, r, fam);
        assert(ed.len() == 1);
        assert(e == ed[0]);
        let t = choose|t: int| 0 <= t < s.len() && (#[trigger] s[t]).id == Some(r);
        assert(s[t].id == Some(e.target));
        assert(s[i].id == Some(e.source));
    }
    if dependency_entry(s, e) {
        let t = choose|t: int| 0 <= t < s.len() && (#[trigger] s[t]).id == Some(e.target);
        let i = choose|i: int|
            0 <= i < s.len() && (#[trigger] s[i]).id == Some(e.source) && s[i].path == e.path && (meta_get(
                s[i].metadata,
                e.field,
            ) matches Some(MValue::Sequence(xs)) && xs.contains(e.target));
        let xs = meta_get(s[i].metadata, e.field)->0->Sequence_0;
        lemma_dependency_edge(s, i, e.field, xs, e.target, t);
        assert(e == EdgeView { source: s[i].id->0, target: e.target, path: s[i].path, field: e.field, reference: e.target });
    }
}

/// The parent graph holds exactly the parent entries.
pub proof fn lemma_parent_edges_exact(s: Seq<SnapshotView>, e: EdgeView)
    ensures
        edges_of(s, CycleFamily::Parent).contains(e) <==> parent_entry(s, e),
{
    let fam = CycleFamily::Parent;
    lemma_cycle_fields_distinct();
    let ff = family_fields(fam);
    assert(ff[0] == "parent"@);
    if edges_of(s, fam).contains(e) {
        lemma_edge_unfold(s, fam, e);
        let (i, f, r) = choose|i: int, f: Seq<char>, r: Seq<char>|
            0 <= i < s.len() && s[i].id is Some && family_fields(fam).contains(f) && meta_get(
                s[i].metadata,
                f,
            ) is Some && cycle_shape(f, meta_get(s[i].metadata, f)->0) && policy_of(s[i].kind, f)
                != RelationshipPolicy::Ignore && value_strings(meta_get(s[i].metadata, f)->0).contains(r)
                && #[trigger] edge_for(s, s[i], s[i].id->0, f, r, fam).contains(e);
        let q = choose|q: int| 0 <= q < ff.len() && ff[q] == f;
        assert(f == "parent"@);
        let val = meta_get(s[i].metadata, f)->0;
        assert(val is Scalar);
        assert(value_strings(val) == seq![val->Scalar_0]);
        assert(r == val->Scalar_0);
        let ed = edge_for(s, s[i], s[i].id->0, f, r, fam);
        assert(ed.len() == 1);
        assert(e == ed[0]);
        let k = policy_of(s[i].kind, f)->Expected_0;
        assert(target_has_kind(s, r, k));
        let t = choose|t: int| 0 <= t < s.len() && (#[trigger] s[t]).id == Some(r) && s[t].kind == k;
        assert(s[t].id == Some(e.target));
        assert(s[i].id == Some(e.source));
    }
    if parent_entry(s, e) {
        let i = choose|i: int|
            0 <= i < s.len() && (#[trigger] s[i]).id == Some(e.source) && s[i].path == e.path && meta_get(
                s[i].metadata,
                e.field,
            ) == Some(MValue::Scalar(e.target)) && {
                ||| (s[i].kind == ArtifactKind::Epic || s[i].kind == ArtifactKind::UserStory) && exists|t: int|
                    0 <= t < s.len() && (#[trigger] s[t]).id == Some(e.target) && s[t].kind == ArtifactKind::Prd
                ||| (s[i].kind == ArtifactKind::Requirements || s[i].kind == ArtifactKind::Design || s[i].kind
                    == ArtifactKind::Task) && exists|t: int|
                    0 <= t < s.len() && (#[trigger] s[t]).id == Some(e.target) && s[t].kind
                        == ArtifactKind::UserStory
            };
        let val = MValue::Scalar(e.target);
        assert(value_strings(val)[0] == e.target);
        assert(value_strings(val).contains(e.target));
        assert(ff.contains(e.field));
        if s[i].kind == ArtifactKind::Epic || s[i].kind == ArtifactKind::UserStory {
            let t = choose|t: int|
                0 <= t < s.len() && (#[trigger] s[t]).id == Some(e.target) && s[t].kind == ArtifactKind::Prd;
            assert(has_target(s, e.target));
            assert(target_has_kind(s, e.target, ArtifactKind::Prd));
        } else {
            let t = choose|t: int|
                0 <= t < s.len() && (#[trigger] s[t]).id == Some(e.target) && s[t].kind
                    == ArtifactKind::UserStory;
            assert(has_target(s, e.target));
            assert(target_has_kind(s, e.target, ArtifactKind::UserStory));
        }
        let ed = edge_for(s, s[i], s[i].id->0, e.field, e.target, fam);
        assert(ed == seq![e]);
        assert(ed[0] == e);
        lemma_edge_fold(s, fam, i, e.field, e.target, e);
    }
}

/// The supersession graph holds exactly the supersession entries.
pub proof fn lemma_supersession_edges_exact(s: Seq<SnapshotView>, e: EdgeView)
    ensures
        edges_of(s, CycleFamily::Supersession).contains(e) <==> supersession_entry(s, e),
{
    let fam = CycleFamily::Supersession;
    lemma_cycle_fields_distinct();
    let ff = family_fields(fam);
    assert(ff[0] == "supersedes"@ && ff[1] == "superseded_by"@);
    if edges_of(s, fam).contains(e) {
        lemma_edge_unfold(s, fam, e);
        let (i, f, r) = choose|i: int, f: Seq<char>, r: Seq<char>|
            0 <= i < s.len() && s[i].id is Some && family_fields(fam).contains(f) && meta_get(
                s[i].metadata,
                f,
            ) is Some && cycle_shape(f, meta_get(s[i].metadata, f)->0) && policy_of(s[i].kind, f)
                != RelationshipPolicy::Ignore && value_strings(meta_get(s[i].metadata, f)->0).contains(r)
                && #[trigger] edge_for(s, s[i], s[i].id->0, f, r, fam).contains(e);
        let q = choose|q: int| 0 <= q < ff.len() && ff[q] == f;
        assert(f == "supersedes"@ || f == "superseded_by"@);
        let val = meta_get(s[i].metadata, f)->0;
        assert(val is Scalar);
        assert(value_strings(val) == seq![val->Scalar_0]);
        assert(r == val->Scalar_0);
        let ed = edge_for(s, s[i], s[i].id->0, f, r, fam);
        assert(ed.len() == 1);
        assert(e == ed[0]);
        assert(target_has_kind(s, r, s[i].kind));
        let t = choose|t: int| 0 <= t < s.len() && (#[trigger] s[t]).id == Some(r) && s[t].kind == s[i].kind;
        assert(e.reference == r);
        assert(e.path == s[i].path);
        assert(e.field == f);
    }
    if supersession_entry(s, e) {
        let i = choose|i: int|
            0 <= i < s.len() && (#[trigger] s[i]).id is Some && s[i].path == e.path && meta_get(
                s[i].metadata,
                e.field,
            ) == Some(MValue::Scalar(e.reference)) && (exists|t: int|
                0 <= t < s.len() && (#[trigger] s[t]).id == Some(e.reference) && s[t].kind == s[i].kind) && {
                ||| e.field == "supersedes"@ && e.source == s[i].id->0 && e.target == e.reference
                ||| e.field == "superseded_by"@ && e.source == e.reference && e.target == s[i].id->0
            };
        let t = choose|t: int| 0 <= t < s.len() && (#[trigger] s[t]).id == Some(e.reference) && s[t].kind == s[i].kind;
        let val = MValue::Scalar(e.reference);
        assert(value_strings(val)[0] == e.reference);
        assert(value_strings(val).contains(e.reference));
        assert(ff.contains(e.field));
        assert(has_target(s, e.reference));
        assert(target_has_kind(s, e.reference, s[i].kind));
        let ed = edge_for(s, s[i], s[i].id->0, e.field, e.reference, fam);
        assert(ed == seq![e]);
        assert(ed[0] == e);
        lemma_edge_fold(s, fam, i, e.field, e.reference, e);
    }
}

} // verus!
