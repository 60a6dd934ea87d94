//! Repository-wide identity rules: duplicate identifiers and file names that
//! disagree with frontmatter identifiers.
use crate::artifact::{ArtifactId, ArtifactKind, ArtifactPath, ArtifactSnapshot, SnapshotView};
use crate::copy::{view_seq, Duplicate};
use crate::diagnostic::{diag_view, lemma_lex_lt_facts, stable_lt, DiagView, Diagnostic, Severity};
use crate::order::{
    first_at, lemma_flat_map_congruent, lemma_flat_map_member, lemma_flat_map_permutation,
    lemma_map_values_permutation, lemma_no_duplicates_permutation, lemma_permutation_contains,
    lemma_sorted_by_order_independent, lemma_uniq_elements, lemma_uniq_flat_map, sort_stable, sorted_by,
    uniq, Order, lemma_flat_map_concat, lemma_flat_map_empty, lemma_sorted_by_permutation,
    lemma_uniq_append_flat_map,
};
use crate::relationships::has_target;
use crate::report::{file_name, path_encoded_id_of, path_id};
use crate::text::{cat, lex_lt, owned, strip_suffix, text_eq};
use vstd::prelude::*;
use vstd::seq_lib::lemma_multiset_commutative;

verus! {

broadcast use vstd::string::group_string_axioms;

/// The kinds whose file names encode their identifier.
pub open spec fn encodes_id(kind: ArtifactKind) -> bool {
    kind == ArtifactKind::Prd || kind == ArtifactKind::Epic || kind == ArtifactKind::Adr
}

/// The identifier encoded in a file name, for the kinds that encode one.
pub open spec fn encoded_id(kind: ArtifactKind, path: Seq<char>) -> Option<Seq<char>> {
    if encodes_id(kind) {
        path_id(kind, path)
    } else {
        None
    }
}

/// Extracts the identifier that a PRD, epic or ADR file name encodes.
pub fn path_encoded_id(kind: ArtifactKind, path: &ArtifactPath) -> (res: Option<ArtifactId>)
    ensures
        crate::artifact::opt_id_view(res) == encoded_id(kind, path@),
{
    match kind {
        ArtifactKind::Prd | ArtifactKind::Epic | ArtifactKind::Adr => path_encoded_id_of(kind, path),
        _ => None,
    }
}

/// The order of texts.
pub struct TextOrder;

impl Order<String> for TextOrder {
    open spec fn before(a: Seq<char>, b: Seq<char>) -> bool {
        lex_lt(a, b)
    }

    proof fn lemma_transitive(a: Seq<char>, b: Seq<char>, c: Seq<char>) {
        lemma_lex_lt_facts(a, b, c);
    }

    proof fn lemma_irreflexive(a: Seq<char>) {
        lemma_lex_lt_facts(a, a, a);
    }

    fn precedes(a: &String, b: &String) -> (res: bool) {
        crate::diagnostic::text_lt(a.as_str(), b.as_str())
    }
}

/// The paths of the snapshots with identifier `x`, in input order.
pub open spec fn id_paths(s: Seq<SnapshotView>, x: Seq<char>) -> Seq<Seq<char>> {
    s.flat_map(
        |v: SnapshotView|
            if v.id == Some(x) {
                seq![v.path]
            } else {
                seq![]
            },
    )
}

/// The elements of `s` without repetitions, first occurrences kept.
pub open spec fn distinct(s: Seq<Seq<char>>) -> Seq<Seq<char>>
    decreases s.len(),
{
    if s.len() == 0 {
        s
    } else if distinct(s.drop_last()).contains(s.last()) {
        distinct(s.drop_last())
    } else {
        distinct(s.drop_last()).push(s.last())
    }
}

/// Removing repetitions keeps exactly the elements.
pub proof fn lemma_distinct_contains(s: Seq<Seq<char>>)
    ensures
        forall|x: Seq<char>| distinct(s).contains(x) <==> s.contains(x),
    decreases s.len(),
{
    if s.len() > 0 {
        lemma_distinct_contains(s.drop_last());
        assert forall|x: Seq<char>| distinct(s).contains(x) <==> s.contains(x) by {
            if s.contains(x) && x != s.last() {
                let i = choose|i: int| 0 <= i < s.len() && s[i] == x;
                assert(s.drop_last()[i] == x);
            }
            if s.drop_last().contains(x) {
                let i = choose|i: int| 0 <= i < s.drop_last().len() && s.drop_last()[i] == x;
                assert(s[i] == x);
            }
            assert(s[s.len() - 1] == s.last());
            if distinct(s.drop_last()).contains(x) || x == s.last() {
                if !distinct(s.drop_last()).contains(s.last()) {
                    let d = distinct(s.drop_last()).push(s.last());
                    if x == s.last() {
                        assert(d[d.len() - 1] == x);
                    } else {
                        let i = choose|i: int|
                            0 <= i < distinct(s.drop_last()).len() && distinct(s.drop_last())[i] == x;
                        assert(d[i] == x);
                    }
                }
            }
            if !distinct(s.drop_last()).contains(s.last()) {
                let d = distinct(s.drop_last()).push(s.last());
                if d.contains(x) {
                    let i = choose|i: int| 0 <= i < d.len() && d[i] == x;
                    if i < d.len() - 1 {
                        assert(distinct(s.drop_last())[i] == x);
                    }
                }
            }
        }
    }
}

/// The distinct paths that use identifier `x`, in text order.
pub open spec fn paths_using(s: Seq<SnapshotView>, x: Seq<char>) -> Seq<Seq<char>> {
    sorted_by::<String, TextOrder>(distinct(id_paths(s, x)))
}

/// Pieces joined by `sep`.
pub open spec fn join(parts: Seq<Seq<char>>, sep: Seq<char>) -> Seq<char>
    decreases parts.len(),
{
    if parts.len() == 0 {
        seq![]
    } else if parts.len() == 1 {
        parts[0]
    } else {
        join(parts.drop_last(), sep) + sep + parts.last()
    }
}

/// The rule identifier of duplicate identifiers.
pub open spec fn duplicate_rule() -> Seq<char> {
    "ARTIFACT.IDENTITY.DUPLICATE_ID"@
}

/// The rule identifier of path identity mismatches.
pub open spec fn path_identity_rule() -> Seq<char> {
    "ARTIFACT.IDENTITY.PATH_IDENTITY"@
}

/// The finding for snapshot `i` when its identifier is shared by several
/// paths; one per distinct path, at its first occurrence.
pub open spec fn duplicate_one(s: Seq<SnapshotView>, i: int) -> Seq<DiagView> {
    let v = s[i];
    match v.id {
        Some(x) => {
            let first = forall|j: int| 0 <= j < i ==> !(#[trigger] s[j].id == Some(x) && s[j].path == v.path);
            let paths = paths_using(s, x);
            if first && paths.len() >= 2 {
                seq![
                    diag_view(
                        v.path,
                        None,
                        duplicate_rule(),
                        Severity::Error,
                        "artifact identifier `"@ + x + "` is used by multiple artifacts: "@ + join(
                            paths,
                            ", "@,
                        ),
                        "assign a unique identifier to this artifact and update affected references"@,
                    ),
                ]
            } else {
                seq![]
            }
        },
        None => seq![],
    }
}

/// The finding for a snapshot whose file name encodes another identifier.
pub open spec fn path_identity_one(v: SnapshotView) -> Seq<DiagView> {
    match (v.id, encoded_id(v.kind, v.path)) {
        (Some(fid), Some(nid)) => if fid != nid {
            seq![
                diag_view(
                    v.path,
                    None,
                    path_identity_rule(),
                    Severity::Error,
                    "filename identity `"@ + nid + "` does not match frontmatter identity `"@ + fid
                        + "`"@,
                    "rename the file to `"@ + nid + "` or update its frontmatter `id` to `"@ + nid
                        + "`"@,
                ),
            ]
        } else {
            seq![]
        },
        _ => seq![],
    }
}

/// The order of identity findings: rule, path, then the stable order.
pub open spec fn identity_lt(a: DiagView, b: DiagView) -> bool {
    ||| lex_lt(a.rule, b.rule)
    ||| a.rule == b.rule && lex_lt(a.path, b.path)
    ||| a.rule == b.rule && a.path == b.path && stable_lt(a, b)
}

/// The order of identity findings.
pub struct IdentityOrder;

impl Order<Diagnostic> for IdentityOrder {
    open spec fn before(a: DiagView, b: DiagView) -> bool {
        identity_lt(a, b)
    }

    proof fn lemma_transitive(a: DiagView, b: DiagView, c: DiagView) {
        lemma_lex_lt_facts(a.rule, b.rule, c.rule);
        lemma_lex_lt_facts(a.path, b.path, c.path);
        if a.rule == b.rule && b.rule == c.rule && a.path == b.path && b.path == c.path
            && stable_lt(a, b) && stable_lt(b, c) {
            <crate::diagnostic::StableOrder as Order<Diagnostic>>::lemma_transitive(a, b, c);
        }
    }

    proof fn lemma_irreflexive(a: DiagView) {
        lemma_lex_lt_facts(a.rule, a.rule, a.rule);
        lemma_lex_lt_facts(a.path, a.path, a.path);
        <crate::diagnostic::StableOrder as Order<Diagnostic>>::lemma_irreflexive(a);
    }

    fn precedes(a: &Diagnostic, b: &Diagnostic) -> (res: bool) {
        let ra = a.rule_id().as_str();
        let rb = b.rule_id().as_str();
        if crate::diagnostic::text_lt(ra, rb) {
            return true;
        }
        if !text_eq(ra, rb) {
            return false;
        }
        let pa = a.path().as_str();
        let pb = b.path().as_str();
        if crate::diagnostic::text_lt(pa, pb) {
            return true;
        }
        if !text_eq(pa, pb) {
            return false;
        }
        a.stable_before(b)
    }
}

/// The identity findings of a repository snapshot.
pub open spec fn identity_findings(s: Seq<SnapshotView>) -> Seq<DiagView> {
    sorted_by::<Diagnostic, IdentityOrder>(
        Seq::new(s.len(), |i: int| i).flat_map(|i: int| duplicate_one(s, i)) + s.flat_map(
            |v: SnapshotView| path_identity_one(v),
        ),
    )
}


/// The indices of a sequence.
pub open spec fn indices(n: nat) -> Seq<int> {
    Seq::new(n, |i: int| i)
}

/// `join` on strings.
pub fn join_texts(parts: &[String], sep: &str) -> (res: String)
    ensures
        res@ == join(view_seq(parts@), sep@),
{
    let ghost ps = view_seq(parts@);
    let mut res = String::new();
    let mut i: usize = 0;
    while i < parts.len()
        invariant
            i <= parts@.len(),
            ps == view_seq(parts@),
            res@ == join(ps.take(i as int), sep@),
        decreases parts@.len() - i,
    {
        proof {
            assert(ps.take(i + 1).drop_last() =~= ps.take(i as int));
            assert(ps.take(i + 1).last() == parts@[i as int]@);
        }
        if i == 0 {
            res = parts[0].duplicate();
            proof {
                assert(ps.take(1)[0] == ps[0]);
            }
        } else {
            res = cat(cat(res, sep), parts[i].as_str());
        }
        i = i + 1;
    }
    proof {
        assert(ps.take(i as int) =~= ps);
    }
    res
}

/// The distinct paths that use identifier `x`, in text order.
fn paths_using_of(snapshots: &[ArtifactSnapshot], x: &str) -> (res: Vec<String>)
    ensures
        view_seq(res@) == paths_using(view_seq(snapshots@), x@),
{
    let ghost s = view_seq(snapshots@);
    let mut acc: Vec<String> = Vec::new();
    let mut k: usize = 0;
    while k < snapshots.len()
        invariant
            k <= snapshots@.len(),
            s == view_seq(snapshots@),
            view_seq(acc@) == distinct(id_paths(s.take(k as int), x@)),
        decreases snapshots@.len() - k,
    {
        let snap = &snapshots[k];
        proof {
            assert(snap@ == s[k as int]);
            s.lemma_flat_map_take_append(
                |v: SnapshotView|
                    if v.id == Some(x@) {
                        seq![v.path]
                    } else {
                        seq![]
                    },
                k as int,
            );
        }
        let uses = match snap.id() {
            Some(id) => text_eq(id.as_str(), x),
            None => false,
        };
        if uses {
            let p = snap.path().as_str();
            let mut seen = false;
            let mut q: usize = 0;
            while q < acc.len()
                invariant
                    q <= acc@.len(),
                    seen == exists|r: int| 0 <= r < q && (#[trigger] view_seq(acc@)[r]) == p@,
                decreases acc@.len() - q,
            {
                proof {
                    assert(view_seq(acc@)[q as int] == acc@[q as int]@);
                }
                if text_eq(acc[q].as_str(), p) {
                    seen = true;
                }
                q = q + 1;
            }
            let ghost old_paths = id_paths(s.take(k as int), x@);
            proof {
                assert(id_paths(s.take(k + 1), x@) =~= old_paths + seq![p@]);
                assert((old_paths + seq![p@]).drop_last() =~= old_paths);
                assert(seen == view_seq(acc@).contains(p@));
            }
            if !seen {
                let owned_path = owned(p);
                proof {
                    crate::copy::lemma_view_seq_push(acc@, owned_path);
                }
                acc.push(owned_path);
            }
        } else {
            proof {
                assert(id_paths(s.take(k + 1), x@) =~= id_paths(s.take(k as int), x@));
            }
        }
        k = k + 1;
    }
    proof {
        assert(s.take(k as int) =~= s);
    }
    sort_stable::<String, TextOrder>(acc)
}

/// Appends the duplicate finding of snapshot `i`.
fn add_duplicate_one(snapshots: &[ArtifactSnapshot], i: usize, out: &mut Vec<Diagnostic>)
    requires
        i < snapshots@.len(),
    ensures
        view_seq(final(out)@) == view_seq(old(out)@) + duplicate_one(view_seq(snapshots@), i as int),
{
    let ghost s = view_seq(snapshots@);
    let snap = &snapshots[i];
    proof {
        assert(snap@ == s[i as int]);
    }
    match snap.id() {
        None => {
            assert(view_seq(out@) =~= view_seq(out@) + Seq::<DiagView>::empty());
        },
        Some(id) => {
            let x = id.as_str();
            let p = snap.path().as_str();
            let mut first = true;
            let mut j: usize = 0;
            while j < i
                invariant
                    j <= i < snapshots@.len(),
                    s == view_seq(snapshots@),
                    first == forall|q: int|
                        0 <= q < j ==> !(#[trigger] s[q].id == Some(x@) && s[q].path == p@),
                decreases i - j,
            {
                let other = &snapshots[j];
                proof {
                    assert(other@ == s[j as int]);
                }
                let same = match other.id() {
                    Some(oid) => text_eq(oid.as_str(), x) && text_eq(other.path().as_str(), p),
                    None => false,
                };
                if same {
                    first = false;
                }
                j = j + 1;
            }
            let mut emitted = false;
            if first {
                let paths = paths_using_of(snapshots, x);
                if paths.len() >= 2 {
                    let list = join_texts(paths.as_slice(), ", ");
                    let message = cat(
                        cat(cat(owned("artifact identifier `"), x), "` is used by multiple artifacts: "),
                        list.as_str(),
                    );
                    let d = Diagnostic::from_parts(
                        snap.path().duplicate(),
                        None,
                        owned("ARTIFACT.IDENTITY.DUPLICATE_ID"),
                        Severity::Error,
                        message,
                        owned(
                            "assign a unique identifier to this artifact and update affected references",
                        ),
                    );
                    proof {
                        crate::copy::lemma_view_seq_push(out@, d);
                    }
                    out.push(d);
                    emitted = true;
                }
            }
            if !emitted {
                assert(view_seq(out@) =~= view_seq(out@) + Seq::<DiagView>::empty());
            }
        },
    }
}

/// Appends the path identity finding of one snapshot.
fn add_path_identity_one(snap: &ArtifactSnapshot, out: &mut Vec<Diagnostic>)
    ensures
        view_seq(final(out)@) == view_seq(old(out)@) + path_identity_one(snap@),
{
    match (snap.id(), path_encoded_id(snap.kind(), snap.path())) {
        (Some(fid), Some(nid)) => {
            if !text_eq(fid.as_str(), nid.as_str()) {
                let message = cat(
                    cat(
                        cat(cat(owned("filename identity `"), nid.as_str()), "` does not match frontmatter identity `"),
                        fid.as_str(),
                    ),
                    "`",
                );
                let remediation = cat(
                    cat(
                        cat(cat(owned("rename the file to `"), nid.as_str()), "` or update its frontmatter `id` to `"),
                        nid.as_str(),
                    ),
                    "`",
                );
                let d = Diagnostic::from_parts(
                    snap.path().duplicate(),
                    None,
                    owned("ARTIFACT.IDENTITY.PATH_IDENTITY"),
                    Severity::Error,
                    message,
                    remediation,
                );
                proof {
                    crate::copy::lemma_view_seq_push(out@, d);
                }
                out.push(d);
            } else {
                assert(view_seq(out@) =~= view_seq(out@) + Seq::<DiagView>::empty());
            }
        },
        _ => {
            assert(view_seq(out@) =~= view_seq(out@) + Seq::<DiagView>::empty());
        },
    }
}

/// Evaluates recognized artifact identities across one repository snapshot.
pub fn validate_identities(snapshots: &[ArtifactSnapshot]) -> (res: Vec<Diagnostic>)
    ensures
        view_seq(res@) == identity_findings(view_seq(snapshots@)),
{
    let ghost s = view_seq(snapshots@);
    let ghost idx = indices(s.len());
    let mut out: Vec<Diagnostic> = Vec::new();
    let mut i: usize = 0;
    while i < snapshots.len()
        invariant
            i <= snapshots@.len(),
            s == view_seq(snapshots@),
            idx == indices(s.len()),
            view_seq(out@) == idx.take(i as int).flat_map(|i: int| duplicate_one(s, i)),
        decreases snapshots@.len() - i,
    {
        proof {
            idx.lemma_flat_map_take_append(|i: int| duplicate_one(s, i), i as int);
            assert(idx[i as int] == i);
        }
        add_duplicate_one(snapshots, i, &mut out);
        i = i + 1;
    }
    proof {
        assert(idx.take(i as int) =~= idx);
    }
    let ghost mid = view_seq(out@);
    let mut k: usize = 0;
    while k < snapshots.len()
        invariant
            k <= snapshots@.len(),
            s == view_seq(snapshots@),
            view_seq(out@) == mid + s.take(k as int).flat_map(|v: SnapshotView| path_identity_one(v)),
        decreases snapshots@.len() - k,
    {
        proof {
            s.lemma_flat_map_take_append(|v: SnapshotView| path_identity_one(v), k as int);
            assert(snapshots@[k as int]@ == s[k as int]);
        }
        add_path_identity_one(&snapshots[k], &mut out);
        k = k + 1;
    }
    proof {
        assert(s.take(k as int) =~= s);
    }
    sort_stable::<Diagnostic, IdentityOrder>(out)
}

// ---------------------------------------------------------------------------
// The findings do not depend on the order of the snapshots
// ---------------------------------------------------------------------------
/// The identifier and path of a snapshot.
pub open spec fn id_path(v: SnapshotView) -> (Option<Seq<char>>, Seq<char>) {
    (v.id, v.path)
}

/// The duplicate-identifier finding for one identifier and path.
pub open spec fn duplicate_of_pair(s: Seq<SnapshotView>, k: (Option<Seq<char>>, Seq<char>)) -> Seq<
    DiagView,
> {
    match k.0 {
        Some(x) => {
            let paths = paths_using(s, x);
            if paths.len() >= 2 {
                seq![
                    diag_view(
                        k.1,
                        None,
                        duplicate_rule(),
                        Severity::Error,
                        "artifact identifier `"@ + x + "` is used by multiple artifacts: "@ + join(
                            paths,
                            ", "@,
                        ),
                        "assign a unique identifier to this artifact and update affected references"@,
                    ),
                ]
            } else {
                seq![]
            }
        },
        None => seq![],
    }
}

proof fn lemma_duplicates_by_pair(s: Seq<SnapshotView>)
    ensures
        Seq::new(s.len(), |i: int| i).flat_map(|i: int| duplicate_one(s, i)) == uniq(
            s.map_values(|v: SnapshotView| id_path(v)),
        ).flat_map(|k: (Option<Seq<char>>, Seq<char>)| duplicate_of_pair(s, k)),
{
    let t = s.map_values(|v: SnapshotView| id_path(v));
    let h = |k: (Option<Seq<char>>, Seq<char>)| duplicate_of_pair(s, k);
    let f = |i: int|
        if first_at(t, i) {
            h(t[i])
        } else {
            Seq::<DiagView>::empty()
        };
    lemma_uniq_flat_map(t, h);
    let idx = Seq::new(s.len(), |i: int| i);
    assert forall|i: int| 0 <= i < idx.len() implies (|i: int| duplicate_one(s, i))(#[trigger] idx[i]) == f(idx[i]) by {
        assert(idx[i] == i);
        assert(t[i] == id_path(s[i]));
        match s[i].id {
            Some(x) => {
                let first = forall|j: int| 0 <= j < i ==> !(#[trigger] s[j].id == Some(x) && s[j].path == s[i].path);
                if first {
                    assert forall|j: int| 0 <= j < i implies t[j] != t[i] by {
                        assert(t[j] == id_path(s[j]));
                    }
                }
                if first_at(t, i) {
                    assert forall|j: int| 0 <= j < i implies !(#[trigger] s[j].id == Some(x) && s[j].path == s[i].path) by {
                        assert(t[j] == id_path(s[j]));
                    }
                }
            },
            None => {},
        }
    }
    lemma_flat_map_congruent(idx, |i: int| duplicate_one(s, i), f);
}

proof fn lemma_distinct_is_uniq(a: Seq<Seq<char>>)
    ensures
        distinct(a) == uniq(a),
    decreases a.len(),
{
    if a.len() > 0 {
        lemma_distinct_is_uniq(a.drop_last());
    }
}

proof fn lemma_paths_using_permutation(s1: Seq<SnapshotView>, s2: Seq<SnapshotView>, x: Seq<char>)
    requires
        s1.to_multiset() == s2.to_multiset(),
    ensures
        paths_using(s1, x) == paths_using(s2, x),
{
    let g = |v: SnapshotView|
        if v.id == Some(x) {
            seq![v.path]
        } else {
            seq![]
        };
    lemma_flat_map_permutation(s1, s2, g);
    let a1 = id_paths(s1, x);
    let a2 = id_paths(s2, x);
    lemma_distinct_is_uniq(a1);
    lemma_distinct_is_uniq(a2);
    lemma_uniq_elements(a1);
    lemma_uniq_elements(a2);
    lemma_permutation_contains(a1, a2);
    assert forall|y: Seq<char>| #[trigger] uniq(a1).contains(y) == uniq(a2).contains(y) by {
        assert(uniq(a1).contains(y) == a1.contains(y));
        assert(uniq(a2).contains(y) == a2.contains(y));
    }
    assert(uniq(a1).to_set() =~= uniq(a2).to_set());
    lemma_no_duplicates_permutation(uniq(a1), uniq(a2));
    assert forall|p: Seq<char>, q: Seq<char>|
        uniq(a1).contains(p) && uniq(a1).contains(q) && !lex_lt(p, q) && !lex_lt(q, p) implies p == q by {
        lemma_lex_lt_facts(p, q, p);
    }
    lemma_sorted_by_order_independent::<String, TextOrder>(uniq(a1), uniq(a2));
}

/// The text that a path-identity finding asks to rename the file to.
pub open spec fn path_remediation(path: Seq<char>) -> Seq<char> {
    let stem = strip_suffix(file_name(path), ".md"@)->0;
    "rename the file to `"@ + stem + "` or update its frontmatter `id` to `"@ + stem + "`"@
}

/// A finding of one of the two identity shapes.
pub open spec fn identity_shaped(d: DiagView) -> bool {
    &&& d.location is None
    &&& d.severity == Severity::Error
    &&& {
        ||| d.rule == duplicate_rule() && d.remediation
            == "assign a unique identifier to this artifact and update affected references"@
        ||| d.rule == path_identity_rule() && d.remediation == path_remediation(d.path)
    }
}

/// The identity findings of a repository do not depend on the order in which
/// its snapshots come: permutations of one another give the same findings in
/// the same order.
pub proof fn lemma_identity_findings_order_independent(s1: Seq<SnapshotView>, s2: Seq<SnapshotView>)
    requires
        s1.to_multiset() == s2.to_multiset(),
    ensures
        identity_findings(s1) == identity_findings(s2),
{
    assert forall|x: Seq<char>| #[trigger] paths_using(s1, x) == paths_using(s2, x) by {
        lemma_paths_using_permutation(s1, s2, x);
    }
    let h1 = |k: (Option<Seq<char>>, Seq<char>)| duplicate_of_pair(s1, k);
    let h2 = |k: (Option<Seq<char>>, Seq<char>)| duplicate_of_pair(s2, k);
    assert(h1 =~= h2);
    lemma_duplicates_by_pair(s1);
    lemma_duplicates_by_pair(s2);
    let t1 = s1.map_values(|v: SnapshotView| id_path(v));
    let t2 = s2.map_values(|v: SnapshotView| id_path(v));
    lemma_map_values_permutation(s1, s2, |v: SnapshotView| id_path(v));
    lemma_uniq_elements(t1);
    lemma_uniq_elements(t2);
    lemma_permutation_contains(t1, t2);
    assert forall|y: (Option<Seq<char>>, Seq<char>)| #[trigger] uniq(t1).contains(y) == uniq(t2).contains(y) by {
        assert(uniq(t1).contains(y) == t1.contains(y));
        assert(uniq(t2).contains(y) == t2.contains(y));
    }
    assert(uniq(t1).to_set() =~= uniq(t2).to_set());
    lemma_no_duplicates_permutation(uniq(t1), uniq(t2));
    lemma_flat_map_permutation(uniq(t1), uniq(t2), h1);
    let pi = |v: SnapshotView| path_identity_one(v);
    lemma_flat_map_permutation(s1, s2, pi);
    let a1 = uniq(t1).flat_map(h1);
    let a2 = uniq(t2).flat_map(h1);
    let b1 = s1.flat_map(pi);
    let b2 = s2.flat_map(pi);
    let all1 = Seq::new(s1.len(), |i: int| i).flat_map(|i: int| duplicate_one(s1, i)) + s1.flat_map(
        |v: SnapshotView| path_identity_one(v),
    );
    let all2 = Seq::new(s2.len(), |i: int| i).flat_map(|i: int| duplicate_one(s2, i)) + s2.flat_map(
        |v: SnapshotView| path_identity_one(v),
    );
    assert(all1 == a1 + b1);
    assert(all2 == a2 + b2);
    lemma_multiset_commutative(a1, b1);
    lemma_multiset_commutative(a2, b2);
    reveal_strlit("ARTIFACT.IDENTITY.DUPLICATE_ID");
    reveal_strlit("ARTIFACT.IDENTITY.PATH_IDENTITY");
    assert(duplicate_rule() != path_identity_rule()) by {
        assert(duplicate_rule()[18] != path_identity_rule()[18]);
    }
    assert forall|d: DiagView| all1.contains(d) implies identity_shaped(d) by {
        let k = choose|k: int| 0 <= k < all1.len() && all1[k] == d;
        if k < a1.len() {
            assert(a1.contains(d));
            lemma_flat_map_member(uniq(t1), h1, d);
        } else {
            assert(b1[k - a1.len()] == d);
            assert(b1.contains(d));
            lemma_flat_map_member(s1, pi, d);
            let i = choose|i: int| 0 <= i < s1.len() && #[trigger] pi(s1[i]).contains(d);
            assert(d.remediation == path_remediation(d.path));
        }
    }
    assert forall|a: DiagView, b: DiagView|
        all1.contains(a) && all1.contains(b) && !identity_lt(a, b) && !identity_lt(b, a) implies a == b by {
        lemma_lex_lt_facts(a.rule, b.rule, a.rule);
        lemma_lex_lt_facts(a.path, b.path, a.path);
        lemma_lex_lt_facts(a.message, b.message, a.message);
        assert(identity_shaped(a) && identity_shaped(b));
        assert(a.rule == b.rule);
        assert(a.path == b.path);
        assert(!stable_lt(a, b) && !stable_lt(b, a));
        assert(a.message == b.message);
        assert(a.remediation == b.remediation);
    }
    lemma_sorted_by_order_independent::<Diagnostic, IdentityOrder>(all1, all2);
}

proof fn lemma_paths_using_single(s: Seq<SnapshotView>, x: Seq<char>, p: Seq<char>)
    requires
        forall|k: int| 0 <= k < s.len() && (#[trigger] s[k]).id == Some(x) ==> s[k].path == p,
    ensures
        paths_using(s, x).len() <= 1,
{
    let g = |v: SnapshotView|
        if v.id == Some(x) {
            seq![v.path]
        } else {
            seq![]
        };
    let ip = id_paths(s, x);
    lemma_distinct_is_uniq(ip);
    lemma_uniq_elements(ip);
    let u = uniq(ip);
    lemma_sorted_by_permutation::<String, TextOrder>(u);
    if u.len() >= 2 {
        assert(u.contains(u[0]) && u.contains(u[1]));
        lemma_flat_map_member(s, g, u[0]);
        lemma_flat_map_member(s, g, u[1]);
        let i = choose|i: int| 0 <= i < s.len() && #[trigger] g(s[i]).contains(u[0]);
        let j = choose|j: int| 0 <= j < s.len() && #[trigger] g(s[j]).contains(u[1]);
        assert(u[0] == p && u[1] == p);
    }
}

/// Adding snapshots whose identifiers are new to the repository and
/// distinct from one another, and whose file names agree with their
/// identifiers, leaves the identity findings unchanged.
pub proof fn lemma_identity_findings_unrelated_additions(s: Seq<SnapshotView>, e: Seq<SnapshotView>)
    requires
        forall|i: int|
            0 <= i < e.len() ==> match (#[trigger] e[i]).id {
                Some(x) => !has_target(s, x) && forall|j: int|
                    0 <= j < e.len() && j != i ==> e[j].id != Some(x),
                None => true,
            },
        forall|i: int| 0 <= i < e.len() ==> path_identity_one(#[trigger] e[i]).len() == 0,
    ensures
        identity_findings(s + e) == identity_findings(s),
{
    let se = s + e;
    assert forall|x: Seq<char>| has_target(s, x) implies #[trigger] paths_using(se, x) == paths_using(s, x) by {
        let g = |v: SnapshotView|
            if v.id == Some(x) {
                seq![v.path]
            } else {
                seq![]
            };
        lemma_flat_map_concat(s, e, g);
        assert forall|i: int| 0 <= i < e.len() implies g(#[trigger] e[i]).len() == 0 by {
            if e[i].id == Some(x) {
                assert(!has_target(s, x));
            }
        }
        lemma_flat_map_empty(e, g);
        assert(id_paths(se, x) =~= id_paths(s, x));
    }
    let t_s = s.map_values(|v: SnapshotView| id_path(v));
    let t_e = e.map_values(|v: SnapshotView| id_path(v));
    let t_se = se.map_values(|v: SnapshotView| id_path(v));
    assert(t_se =~= t_s + t_e);
    let h_s = |k: (Option<Seq<char>>, Seq<char>)| duplicate_of_pair(s, k);
    let h_se = |k: (Option<Seq<char>>, Seq<char>)| duplicate_of_pair(se, k);
    assert forall|i: int| 0 <= i < t_e.len() implies t_s.contains(#[trigger] t_e[i]) || h_se(t_e[i]).len() == 0 by {
        assert(t_e[i] == id_path(e[i]));
        match e[i].id {
            Some(x) => {
                assert forall|k: int| 0 <= k < se.len() && (#[trigger] se[k]).id == Some(x) implies se[k].path == e[i].path by {
                    if k < s.len() {
                        assert(se[k] == s[k]);
                        assert(!has_target(s, x));
                    } else {
                        assert(se[k] == e[k - s.len()]);
                    }
                }
                lemma_paths_using_single(se, x, e[i].path);
            },
            None => {},
        }
    }
    lemma_uniq_append_flat_map(t_s, t_e, h_se);
    lemma_uniq_elements(t_s);
    assert forall|i: int| 0 <= i < uniq(t_s).len() implies h_se(#[trigger] uniq(t_s)[i]) == h_s(uniq(t_s)[i]) by {
        let k = uniq(t_s)[i];
        assert(uniq(t_s).contains(k));
        assert(t_s.contains(k));
        let j = choose|j: int| 0 <= j < t_s.len() && t_s[j] == k;
        assert(t_s[j] == id_path(s[j]));
        match k.0 {
            Some(x) => {
                assert(has_target(s, x));
                assert(paths_using(se, x) == paths_using(s, x));
            },
            None => {},
        }
    }
    lemma_flat_map_congruent(uniq(t_s), h_se, h_s);
    lemma_duplicates_by_pair(s);
    lemma_duplicates_by_pair(se);
    let pi = |v: SnapshotView| path_identity_one(v);
    lemma_flat_map_concat(s, e, pi);
    lemma_flat_map_empty(e, pi);
    assert(se.flat_map(pi) =~= s.flat_map(pi));
    let all_se = Seq::new(se.len(), |i: int| i).flat_map(|i: int| duplicate_one(se, i)) + se.flat_map(
        |v: SnapshotView| path_identity_one(v),
    );
    let all_s = Seq::new(s.len(), |i: int| i).flat_map(|i: int| duplicate_one(s, i)) + s.flat_map(
        |v: SnapshotView| path_identity_one(v),
    );
    assert(all_se == all_s);
}

// ---------------------------------------------------------------------------
// Duplicate identifiers are reported on every path that uses them
// ---------------------------------------------------------------------------
/// The paths listed for an identifier are exactly the paths of the
/// snapshots that carry it, each once, in text order.
pub proof fn lemma_paths_using_exact(s: Seq<SnapshotView>, x: Seq<char>)
    ensures
        forall|p: Seq<char>|
            #[trigger] paths_using(s, x).contains(p) <==> exists|j: int|
                0 <= j < s.len() && (#[trigger] s[j]).id == Some(x) && s[j].path == p,
        paths_using(s, x).no_duplicates(),
        crate::order::is_sorted::<String, TextOrder>(paths_using(s, x)),
{
    broadcast use vstd::seq_lib::group_to_multiset_ensures;

    let g = |v: SnapshotView|
        if v.id == Some(x) {
            seq![v.path]
        } else {
            seq![]
        };
    let a = id_paths(s, x);
    let u = distinct(a);
    lemma_distinct_is_uniq(a);
    lemma_uniq_elements(a);
    lemma_sorted_by_permutation::<String, TextOrder>(u);
    crate::order::lemma_sorted_by_sorted::<String, TextOrder>(u);
    let r = paths_using(s, x);
    assert forall|p: Seq<char>| #[trigger] r.contains(p) <==> exists|j: int|
        0 <= j < s.len() && (#[trigger] s[j]).id == Some(x) && s[j].path == p by {
        assert(r.contains(p) <==> r.to_multiset().count(p) > 0);
        assert(u.contains(p) <==> u.to_multiset().count(p) > 0);
        if a.contains(p) {
            lemma_flat_map_member(s, g, p);
            let j = choose|j: int| 0 <= j < s.len() && #[trigger] g(s[j]).contains(p);
            assert(s[j].id == Some(x) && s[j].path == p);
        }
        if exists|j: int| 0 <= j < s.len() && (#[trigger] s[j]).id == Some(x) && s[j].path == p {
            let j = choose|j: int| 0 <= j < s.len() && (#[trigger] s[j]).id == Some(x) && s[j].path == p;
            assert(g(s[j]) == seq![p]);
            assert(g(s[j]).contains(p)) by {
                assert(g(s[j])[0] == p);
            }
            assert(s.contains(s[j]));
            crate::order::lemma_flat_map_has(s, g, s[j], p);
        }
    }
    u.lemma_multiset_has_no_duplicates();
    r.lemma_multiset_has_no_duplicates_conv();
}

proof fn lemma_first_use(s: Seq<SnapshotView>, x: Seq<char>, p: Seq<char>, k: int)
    requires
        0 <= k < s.len(),
        s[k].id == Some(x),
        s[k].path == p,
    ensures
        exists|f: int|
            0 <= f <= k && (#[trigger] s[f]).id == Some(x) && s[f].path == p && forall|j: int|
                0 <= j < f ==> !(#[trigger] s[j].id == Some(x) && s[j].path == p),
    decreases k,
{
    if exists|j: int| 0 <= j < k && (#[trigger] s[j]).id == Some(x) && s[j].path == p {
        let j = choose|j: int| 0 <= j < k && (#[trigger] s[j]).id == Some(x) && s[j].path == p;
        lemma_first_use(s, x, p, j);
    } else {
        assert forall|j: int| 0 <= j < k implies !(#[trigger] s[j].id == Some(x) && s[j].path == p) by {
            if s[j].id == Some(x) && s[j].path == p {
                assert(0 <= j < k && s[j].id == Some(x) && s[j].path == p);
            }
        }
    }
}

/// When an identifier is carried by artifacts at two or more different
/// paths, every one of those paths gets a duplicate-identifier error that
/// lists all of them.
pub proof fn lemma_duplicate_reported_on_every_path(
    s: Seq<SnapshotView>,
    x: Seq<char>,
    i: int,
    j: int,
    k: int,
)
    requires
        0 <= i < s.len(),
        0 <= j < s.len(),
        0 <= k < s.len(),
        s[i].id == Some(x),
        s[j].id == Some(x),
        s[i].path != s[j].path,
        s[k].id == Some(x),
    ensures
        identity_findings(s).contains(
            diag_view(
                s[k].path,
                None,
                "ARTIFACT.IDENTITY.DUPLICATE_ID"@,
                Severity::Error,
                "artifact identifier `"@ + x + "` is used by multiple artifacts: "@ + join(
                    paths_using(s, x),
                    ", "@,
                ),
                "assign a unique identifier to this artifact and update affected references"@,
            ),
        ),
{
    let r = paths_using(s, x);
    lemma_paths_using_exact(s, x);
    assert(r.contains(s[i].path));
    assert(r.contains(s[j].path));
    let a = choose|a: int| 0 <= a < r.len() && r[a] == s[i].path;
    let b = choose|b: int| 0 <= b < r.len() && r[b] == s[j].path;
    assert(r.len() >= 2);
    lemma_first_use(s, x, s[k].path, k);
    let f = choose|f: int|
        0 <= f <= k && (#[trigger] s[f]).id == Some(x) && s[f].path == s[k].path && forall|q: int|
            0 <= q < f ==> !(#[trigger] s[q].id == Some(x) && s[q].path == s[k].path);
    let d = diag_view(
        s[k].path,
        None,
        "ARTIFACT.IDENTITY.DUPLICATE_ID"@,
        Severity::Error,
        "artifact identifier `"@ + x + "` is used by multiple artifacts: "@ + join(r, ", "@),
        "assign a unique identifier to this artifact and update affected references"@,
    );
    assert(duplicate_one(s, f) == seq![d]);
    assert(duplicate_one(s, f).contains(d)) by {
        assert(duplicate_one(s, f)[0] == d);
    }
    let idx = Seq::new(s.len(), |q: int| q);
    assert(idx[f] == f);
    assert(idx.contains(f));
    let dup = |q: int| duplicate_one(s, q);
    crate::order::lemma_flat_map_has(idx, dup, f, d);
    let left = idx.flat_map(dup);
    let right = s.flat_map(|v: SnapshotView| path_identity_one(v));
    let m = choose|m: int| 0 <= m < left.len() && left[m] == d;
    assert((left + right)[m] == d);
    crate::order::lemma_sorted_by_contains::<Diagnostic, IdentityOrder>(left + right, d);
}

/// Artifacts at two different paths carry identifier `x`.
pub open spec fn shared_id(s: Seq<SnapshotView>, x: Seq<char>) -> bool {
    exists|i: int, j: int|
        0 <= i < s.len() && 0 <= j < s.len() && (#[trigger] s[i]).id == Some(x) && (#[trigger] s[j]).id
            == Some(x) && s[i].path != s[j].path
}

/// The duplicate-identifier error for identifier `x` on path `p`, listing
/// the paths that use `x`.
pub open spec fn duplicate_error(s: Seq<SnapshotView>, x: Seq<char>, p: Seq<char>) -> DiagView {
    diag_view(
        p,
        None,
        "ARTIFACT.IDENTITY.DUPLICATE_ID"@,
        Severity::Error,
        "artifact identifier `"@ + x + "` is used by multiple artifacts: "@ + join(paths_using(s, x), ", "@),
        "assign a unique identifier to this artifact and update affected references"@,
    )
}

/// The duplicate-identifier findings of a repository are exactly one error
/// per path of each identifier that artifacts at two or more paths carry.
pub proof fn lemma_duplicate_findings_exact(s: Seq<SnapshotView>, d: DiagView)
    requires
        d.rule == duplicate_rule(),
    ensures
        identity_findings(s).contains(d) <==> exists|k: int|
            0 <= k < s.len() && (#[trigger] s[k]).id is Some && shared_id(s, s[k].id->0) && d
                == duplicate_error(s, s[k].id->0, s[k].path),
{
    broadcast use vstd::seq_lib::group_to_multiset_ensures;

    if exists|k: int|
        0 <= k < s.len() && (#[trigger] s[k]).id is Some && shared_id(s, s[k].id->0) && d
            == duplicate_error(s, s[k].id->0, s[k].path) {
        let k = choose|k: int|
            0 <= k < s.len() && (#[trigger] s[k]).id is Some && shared_id(s, s[k].id->0) && d
                == duplicate_error(s, s[k].id->0, s[k].path);
        let x = s[k].id->0;
        let (i, j) = choose|i: int, j: int|
            0 <= i < s.len() && 0 <= j < s.len() && (#[trigger] s[i]).id == Some(x) && (#[trigger] s[j]).id
                == Some(x) && s[i].path != s[j].path;
        lemma_duplicate_reported_on_every_path(s, x, i, j, k);
    }
    if identity_findings(s).contains(d) {
        let idx = Seq::new(s.len(), |q: int| q);
        let dup = |q: int| duplicate_one(s, q);
        let left = idx.flat_map(dup);
        let per = |v: SnapshotView| path_identity_one(v);
        let right = s.flat_map(per);
        crate::order::lemma_sorted_by_permutation::<Diagnostic, IdentityOrder>(left + right);
        assert(identity_findings(s).to_multiset().count(d) > 0);
        assert((left + right).contains(d));
        let m = choose|m: int| 0 <= m < (left + right).len() && (left + right)[m] == d;
        if m >= left.len() {
            assert(right[m - left.len()] == d);
            assert(right.contains(d));
            lemma_flat_map_member(s, per, d);
            let q = choose|q: int| 0 <= q < s.len() && #[trigger] per(s[q]).contains(d);
            reveal_strlit("ARTIFACT.IDENTITY.PATH_IDENTITY");
            reveal_strlit("ARTIFACT.IDENTITY.DUPLICATE_ID");
            assert(path_identity_rule().len() != duplicate_rule().len());
            assert(false);
        } else {
            assert(left[m] == d);
            assert(left.contains(d));
            lemma_flat_map_member(idx, dup, d);
            let q = choose|q: int| 0 <= q < idx.len() && #[trigger] dup(idx[q]).contains(d);
            let k = idx[q];
            assert(k == q);
            let x = s[k].id->0;
            let r = paths_using(s, x);
            assert(r.len() >= 2);
            lemma_paths_using_exact(s, x);
            assert(r.contains(r[0]));
            assert(r.contains(r[1]));
            assert(r[0] != r[1]);
            let i = choose|j: int| 0 <= j < s.len() && (#[trigger] s[j]).id == Some(x) && s[j].path == r[0];
            let j = choose|j: int| 0 <= j < s.len() && (#[trigger] s[j]).id == Some(x) && s[j].path == r[1];
            assert(shared_id(s, x));
            assert(d == duplicate_error(s, x, s[k].path));
        }
    }
}

} // verus!
