//! Per-artifact results and the ordered validation report.
use crate::artifact::{
    id_for, kind_from_path, opt_id_view, ArtifactId, ArtifactKind, ArtifactPath, ArtifactSnapshot,
    SnapshotView,
};
use crate::copy::{copy_all, view_seq, Duplicate};
use crate::diagnostic::{diag_view, lemma_lex_lt_facts, DiagView, Diagnostic, Severity, StableOrder};
use crate::order::{
    is_sorted, lemma_sorted_by_order_independent, lemma_sorted_by_permutation,
    lemma_sorted_by_sorted, no_ties, sort_stable, sorted_by, Order,
};
use crate::rules::{artifact_findings, validate_artifact};
use crate::text::{chars_of, chars_split, chars_strip_suffix, lex_lt, split, strip_suffix, string_of};
use vstd::prelude::*;

verus! {

broadcast use vstd::string::group_string_axioms;

/// Status assigned to one artifact result.
#[derive(Clone, Copy, Debug, PartialEq, Eq, Structural, PartialOrd, Ord)]
pub enum ArtifactStatus {
    /// The artifact satisfies all applicable rules.
    Passed,
    /// The artifact has one or more violations.
    Diagnostic,
}

/// Overall validation status.
#[derive(Clone, Copy, Debug, PartialEq, Eq, Structural, PartialOrd, Ord)]
pub enum OverallStatus {
    /// No artifact has a diagnostic status.
    Success,
    /// At least one artifact has a diagnostic status.
    Failure,
}

/// The status that a list of violations gives.
pub open spec fn status_of(violations: Seq<DiagView>) -> ArtifactStatus {
    if violations.len() == 0 {
        ArtifactStatus::Passed
    } else {
        ArtifactStatus::Diagnostic
    }
}

/// The content of an artifact result.
pub struct ResultView {
    pub path: Seq<char>,
    pub kind: Option<ArtifactKind>,
    pub id: Option<Seq<char>>,
    pub status: ArtifactStatus,
    pub violations: Seq<DiagView>,
}

/// The overall status of a list of results.
pub open spec fn overall_of(results: Seq<ResultView>) -> OverallStatus {
    if exists|i: int| 0 <= i < results.len() && (#[trigger] results[i]).status
        == ArtifactStatus::Diagnostic {
        OverallStatus::Failure
    } else {
        OverallStatus::Success
    }
}

impl OverallStatus {
    /// Calculates the overall result from artifact results.
    pub fn from_results(results: &[ArtifactResult]) -> (res: Self)
        ensures
            res == overall_of(view_seq(results@)),
    {
        let mut i: usize = 0;
        while i < results.len()
            invariant
                i <= results@.len(),
                forall|k: int|
                    0 <= k < i ==> (#[trigger] view_seq(results@)[k]).status
                        != ArtifactStatus::Diagnostic,
            decreases results@.len() - i,
        {
            proof {
                assert(view_seq(results@)[i as int] == results@[i as int]@);
            }
            if results[i].status == ArtifactStatus::Diagnostic {
                return OverallStatus::Failure;
            }
            i = i + 1;
        }
        OverallStatus::Success
    }
}

/// The last segment of a slash-separated path.
pub open spec fn file_name(path: Seq<char>) -> Seq<char> {
    split(path, '/').last()
}

/// The identifier that a path's file name encodes for `kind`.
pub open spec fn path_id(kind: ArtifactKind, path: Seq<char>) -> Option<Seq<char>> {
    match strip_suffix(file_name(path), ".md"@) {
        Some(stem) => id_for(kind, stem),
        None => None,
    }
}

/// The result of a source failure: kind and identifier from the path, and
/// the one diagnostic.
pub open spec fn diagnostic_result(path: Seq<char>, d: DiagView) -> ResultView {
    let kind = kind_from_path(path);
    ResultView {
        path,
        kind,
        id: match kind {
            Some(k) => path_id(k, path),
            None => None,
        },
        status: ArtifactStatus::Diagnostic,
        violations: seq![d],
    }
}

/// The result of validating a snapshot.
pub open spec fn snapshot_result(s: SnapshotView) -> ResultView {
    ResultView {
        path: s.path,
        kind: Some(s.kind),
        id: s.id,
        status: status_of(artifact_findings(s)),
        violations: artifact_findings(s),
    }
}

/// The internal finding for a candidate with neither snapshot nor
/// diagnostic.
pub open spec fn empty_candidate_diagnostic(path: Seq<char>) -> DiagView {
    diag_view(
        path,
        None,
        "ARTIFACT.INTERNAL.EMPTY_CANDIDATE"@,
        Severity::Error,
        "the candidate contained neither a snapshot nor a diagnostic"@,
        "provide a normalized snapshot or a source diagnostic"@,
    )
}

/// Validation findings for one artifact.
#[derive(Debug, PartialEq, Eq)]
pub struct ArtifactResult {
    path: ArtifactPath,
    kind: Option<ArtifactKind>,
    id: Option<ArtifactId>,
    status: ArtifactStatus,
    violations: Vec<Diagnostic>,
}

impl View for ArtifactResult {
    type V = ResultView;

    closed spec fn view(&self) -> ResultView {
        ResultView {
            path: self.path@,
            kind: self.kind,
            id: opt_id_view(self.id),
            status: self.status,
            violations: view_seq(self.violations@),
        }
    }
}

impl ArtifactResult {
    /// The status says whether there are violations, and the violations
    /// are in the stable order.
    #[verifier::type_invariant]
    spec fn consistent(self) -> bool {
        &&& self.status == status_of(view_seq(self.violations@))
        &&& is_sorted::<Diagnostic, StableOrder>(view_seq(self.violations@))
    }
}

impl Clone for ArtifactResult {
    /// A copy with the same content.
    fn clone(&self) -> (res: Self)
        ensures
            res@ == self@,
    {
        self.duplicate()
    }
}

impl Duplicate for ArtifactResult {
    fn duplicate(&self) -> (res: Self) {
        proof {
            use_type_invariant(self);
        }
        ArtifactResult {
            path: self.path.duplicate(),
            kind: self.kind,
            id: crate::artifact::copy_opt_id(&self.id),
            status: self.status,
            violations: copy_all(self.violations.as_slice()),
        }
    }
}

/// The identifier encoded in the file name of `path`.
pub fn path_encoded_id_of(kind: ArtifactKind, path: &ArtifactPath) -> (res: Option<ArtifactId>)
    ensures
        opt_id_view(res) == path_id(kind, path@),
{
    let chars = chars_of(path.as_str());
    let parts = chars_split(chars.as_slice(), '/');
    proof {
        assert(parts@.map_values(|p: Vec<char>| p@).len() == parts@.len());
        assert(split(path@, '/').len() > 0) by {
            crate::text::lemma_split_nonempty(path@, '/');
        }
    }
    let last = parts.len() - 1;
    proof {
        assert(parts@[last as int]@ == split(path@, '/')[last as int]);
    }
    let md = chars_of(".md");
    match chars_strip_suffix(parts[last].as_slice(), md.as_slice()) {
        Some(stem) => {
            let stem_text = string_of(stem.as_slice());
            match ArtifactId::try_new(kind, stem_text.as_str()) {
                Ok(id) => Some(id),
                Err(_) => None,
            }
        },
        None => None,
    }
}

impl ArtifactResult {
    /// Validates a normalized snapshot and creates its result.
    pub fn from_snapshot(snapshot: &ArtifactSnapshot) -> (res: Self)
        ensures
            res@ == snapshot_result(snapshot@),
    {
        let violations = validate_artifact(snapshot);
        let status = if violations.len() == 0 {
            ArtifactStatus::Passed
        } else {
            ArtifactStatus::Diagnostic
        };
        let id = match snapshot.id() {
            Some(id) => Some(id.duplicate()),
            None => None,
        };
        proof {
            crate::rules::lemma_artifact_findings_ordered(snapshot@);
        }
        ArtifactResult { path: snapshot.path().duplicate(), kind: Some(snapshot.kind()), id, status, violations }
    }

    /// Creates a result for a source failure that has no normalized snapshot.
    pub fn from_diagnostic(path: ArtifactPath, diagnostic: Diagnostic) -> (res: Self)
        ensures
            res@ == diagnostic_result(path@, diagnostic@),
    {
        let kind = ArtifactKind::from_path(path.as_str());
        let id = match kind {
            Some(k) => path_encoded_id_of(k, &path),
            None => None,
        };
        let violations = vec![diagnostic];
        proof {
            assert(view_seq(violations@) =~= seq![diagnostic@]);
        }
        ArtifactResult { path, kind, id, status: ArtifactStatus::Diagnostic, violations }
    }

    /// Returns an internal diagnostic result for an invalid empty candidate.
    pub fn empty(path: ArtifactPath) -> (res: Self)
        ensures
            res@ == diagnostic_result(path@, empty_candidate_diagnostic(path@)),
    {
        let diagnostic = Diagnostic::new(
            path.duplicate(),
            None,
            "ARTIFACT.INTERNAL.EMPTY_CANDIDATE",
            Severity::Error,
            "the candidate contained neither a snapshot nor a diagnostic",
            "provide a normalized snapshot or a source diagnostic",
        );
        Self::from_diagnostic(path, diagnostic)
    }

    /// Adds findings to this result; its violations stay in the stable order.
    pub fn with_diagnostics(self, diagnostics: Vec<Diagnostic>) -> (res: Self)
        ensures
            res@ == (ResultView {
                path: self@.path,
                kind: self@.kind,
                id: self@.id,
                status: status_of(
                    sorted_by::<Diagnostic, StableOrder>(self@.violations + view_seq(diagnostics@)),
                ),
                violations: sorted_by::<Diagnostic, StableOrder>(
                    self@.violations + view_seq(diagnostics@),
                ),
            }),
    {
        let mut all = self.violations;
        let mut extra = diagnostics;
        let ghost a = view_seq(all@);
        let ghost b = view_seq(extra@);
        all.append(&mut extra);
        proof {
            assert(view_seq(all@) =~= a + b);
        }
        let violations = sort_stable::<Diagnostic, StableOrder>(all);
        proof {
            lemma_sorted_by_permutation::<Diagnostic, StableOrder>(a + b);
            lemma_sorted_by_sorted::<Diagnostic, StableOrder>(a + b);
            assert(view_seq(violations@).len() == violations@.len());
        }
        let status = if violations.len() == 0 {
            ArtifactStatus::Passed
        } else {
            ArtifactStatus::Diagnostic
        };
        ArtifactResult { path: self.path, kind: self.kind, id: self.id, status, violations }
    }

    /// Returns the repository-relative path.
    pub fn path(&self) -> (res: &ArtifactPath)
        ensures
            res@ == self@.path,
    {
        &self.path
    }

    /// Returns the recognized kind, when available.
    pub fn kind(&self) -> (res: Option<ArtifactKind>)
        ensures
            res == self@.kind,
    {
        self.kind
    }

    /// Returns the recognized identifier, when available.
    pub fn id(&self) -> (res: Option<&ArtifactId>)
        ensures
            res is Some <==> self@.id is Some,
            res is Some ==> res->0@ == self@.id->0,
    {
        self.id.as_ref()
    }

    /// Returns the artifact status: `Diagnostic` exactly when there are
    /// violations, whatever their severities.
    pub fn status(&self) -> (res: ArtifactStatus)
        ensures
            res == self@.status,
            res == status_of(self@.violations),
    {
        proof {
            use_type_invariant(self);
        }
        self.status
    }

    /// Returns all violations in stable order.
    pub fn violations(&self) -> (res: &[Diagnostic])
        ensures
            view_seq(res@) == self@.violations,
            is_sorted::<Diagnostic, StableOrder>(self@.violations),
    {
        proof {
            use_type_invariant(self);
        }
        self.violations.as_slice()
    }
}

/// The report position of an optional kind: unknown kinds last.
pub open spec fn kind_rank(k: Option<ArtifactKind>) -> nat {
    match k {
        Some(kind) => kind.rank(),
        None => 8,
    }
}

/// Identifiers in order, results without one last.
pub open spec fn id_lt(a: Option<Seq<char>>, b: Option<Seq<char>>) -> bool {
    match (a, b) {
        (Some(x), Some(y)) => lex_lt(x, y),
        (Some(_), None) => true,
        _ => false,
    }
}

/// The report order: by kind, then identifier, then path.
pub open spec fn result_lt(a: ResultView, b: ResultView) -> bool {
    ||| kind_rank(a.kind) < kind_rank(b.kind)
    ||| kind_rank(a.kind) == kind_rank(b.kind) && id_lt(a.id, b.id)
    ||| kind_rank(a.kind) == kind_rank(b.kind) && a.id == b.id && lex_lt(a.path, b.path)
}

/// The report order of artifact results.
pub struct ReportOrder;

proof fn lemma_id_lt_facts(a: Option<Seq<char>>, b: Option<Seq<char>>, c: Option<Seq<char>>)
    ensures
        !id_lt(a, a),
        id_lt(a, b) && id_lt(b, c) ==> id_lt(a, c),
        !id_lt(a, b) && !id_lt(b, a) ==> a == b,
{
    if a is Some && b is Some && c is Some {
        lemma_lex_lt_facts(a->0, b->0, c->0);
    }
    if a is Some && b is Some {
        lemma_lex_lt_facts(a->0, b->0, a->0);
    }
    if a is Some {
        lemma_lex_lt_facts(a->0, a->0, a->0);
    }
}

impl Order<ArtifactResult> for ReportOrder {
    open spec fn before(a: ResultView, b: ResultView) -> bool {
        result_lt(a, b)
    }

    proof fn lemma_transitive(a: ResultView, b: ResultView, c: ResultView) {
        lemma_id_lt_facts(a.id, b.id, c.id);
        lemma_lex_lt_facts(a.path, b.path, c.path);
    }

    proof fn lemma_irreflexive(a: ResultView) {
        lemma_id_lt_facts(a.id, a.id, a.id);
        lemma_lex_lt_facts(a.path, a.path, a.path);
    }

    fn precedes(a: &ArtifactResult, b: &ArtifactResult) -> (res: bool) {
        let ka = match a.kind {
            Some(k) => k.order_index(),
            None => 8,
        };
        let kb = match b.kind {
            Some(k) => k.order_index(),
            None => 8,
        };
        if ka != kb {
            return ka < kb;
        }
        match (&a.id, &b.id) {
            (Some(x), Some(y)) => {
                if crate::diagnostic::text_lt(x.as_str(), y.as_str()) {
                    return true;
                }
                if !crate::text::text_eq(x.as_str(), y.as_str()) {
                    return false;
                }
            },
            (Some(_), None) => {
                return true;
            },
            (None, Some(_)) => {
                return false;
            },
            (None, None) => {},
        }
        crate::diagnostic::text_lt(a.path.as_str(), b.path.as_str())
    }
}

/// The content of a report.
pub struct ReportView {
    pub status: OverallStatus,
    pub artifacts: Seq<ResultView>,
}

/// The report of a list of results: sorted by kind, identifier and path,
/// with the overall status.
pub open spec fn report_of(results: Seq<ResultView>) -> ReportView {
    ReportView {
        status: overall_of(results),
        artifacts: sorted_by::<ArtifactResult, ReportOrder>(results),
    }
}

/// The complete ordered validation report.
#[derive(Debug, PartialEq, Eq)]
pub struct ValidationReport {
    status: OverallStatus,
    artifacts: Vec<ArtifactResult>,
}

impl ValidationReport {
    /// The artifacts are in report order and the status is theirs.
    #[verifier::type_invariant]
    spec fn ordered(self) -> bool {
        &&& is_sorted::<ArtifactResult, ReportOrder>(view_seq(self.artifacts@))
        &&& self.status == overall_of(view_seq(self.artifacts@))
    }
}

impl Clone for ValidationReport {
    /// A copy with the same content.
    fn clone(&self) -> (res: Self)
        ensures
            res@ == self@,
    {
        proof {
            use_type_invariant(self);
        }
        ValidationReport { status: self.status, artifacts: copy_all(self.artifacts.as_slice()) }
    }
}

impl View for ValidationReport {
    type V = ReportView;

    closed spec fn view(&self) -> ReportView {
        ReportView { status: self.status, artifacts: view_seq(self.artifacts@) }
    }
}

impl ValidationReport {
    /// Creates a report and applies the fixed artifact ordering.
    pub fn from_results(artifacts: Vec<ArtifactResult>) -> (res: Self)
        ensures
            res@ == report_of(view_seq(artifacts@)),
    {
        let ghost input = view_seq(artifacts@);
        let sorted = sort_stable::<ArtifactResult, ReportOrder>(artifacts);
        let status = OverallStatus::from_results(sorted.as_slice());
        proof {
            lemma_overall_permutation(input, view_seq(sorted@));
            lemma_sorted_by_sorted::<ArtifactResult, ReportOrder>(input);
        }
        ValidationReport { status, artifacts: sorted }
    }

    /// Returns the overall validation result: failure exactly when some
    /// artifact has a diagnostic status.
    pub fn status(&self) -> (res: OverallStatus)
        ensures
            res == self@.status,
            res == overall_of(self@.artifacts),
    {
        proof {
            use_type_invariant(self);
        }
        self.status
    }

    /// Returns ordered per-artifact results: by kind, identifier and path.
    pub fn artifacts(&self) -> (res: &[ArtifactResult])
        ensures
            view_seq(res@) == self@.artifacts,
            is_sorted::<ArtifactResult, ReportOrder>(self@.artifacts),
    {
        proof {
            use_type_invariant(self);
        }
        self.artifacts.as_slice()
    }
}

proof fn lemma_overall_permutation(input: Seq<ResultView>, sorted: Seq<ResultView>)
    requires
        sorted == sorted_by::<ArtifactResult, ReportOrder>(input),
    ensures
        overall_of(sorted) == overall_of(input),
{
    broadcast use vstd::seq_lib::group_to_multiset_ensures;

    lemma_sorted_by_permutation::<ArtifactResult, ReportOrder>(input);
    if exists|i: int| 0 <= i < input.len() && (#[trigger] input[i]).status
        == ArtifactStatus::Diagnostic {
        let i = choose|i: int| 0 <= i < input.len() && (#[trigger] input[i]).status
            == ArtifactStatus::Diagnostic;
        assert(input.to_multiset().count(input[i]) > 0);
        assert(sorted.contains(input[i]));
    }
    if exists|i: int| 0 <= i < sorted.len() && (#[trigger] sorted[i]).status
        == ArtifactStatus::Diagnostic {
        let i = choose|i: int| 0 <= i < sorted.len() && (#[trigger] sorted[i]).status
            == ArtifactStatus::Diagnostic;
        assert(sorted.to_multiset().count(sorted[i]) > 0);
        assert(input.contains(sorted[i]));
    }
}

/// The overall status is a failure exactly when some artifact has a
/// diagnostic status.
pub proof fn lemma_report_fails_iff_diagnostic(results: Seq<ResultView>)
    ensures
        report_of(results).status == OverallStatus::Failure <==> exists|i: int|
            0 <= i < results.len() && (#[trigger] results[i]).status == ArtifactStatus::Diagnostic,
{
}

/// The report lists exactly the given results, each artifact after no
/// artifact that it precedes in kind, identifier and path order.
pub proof fn lemma_report_sorted_permutation(results: Seq<ResultView>)
    ensures
        report_of(results).artifacts.to_multiset() == results.to_multiset(),
        is_sorted::<ArtifactResult, ReportOrder>(report_of(results).artifacts),
{
    lemma_sorted_by_permutation::<ArtifactResult, ReportOrder>(results);
    lemma_sorted_by_sorted::<ArtifactResult, ReportOrder>(results);
}

/// The report does not depend on the order in which results arrive, as long
/// as no two different results share kind, identifier and path.
pub proof fn lemma_report_order_independent(r1: Seq<ResultView>, r2: Seq<ResultView>)
    requires
        r1.to_multiset() == r2.to_multiset(),
        no_ties::<ArtifactResult, ReportOrder>(r1),
    ensures
        report_of(r1) == report_of(r2),
{
    lemma_sorted_by_order_independent::<ArtifactResult, ReportOrder>(r1, r2);
    lemma_overall_permutation(r1, sorted_by::<ArtifactResult, ReportOrder>(r1));
    lemma_overall_permutation(r2, sorted_by::<ArtifactResult, ReportOrder>(r2));
}

/// A result has a diagnostic status exactly when it has violations.
pub proof fn lemma_result_status(s: SnapshotView, path: Seq<char>, d: DiagView)
    ensures
        snapshot_result(s).status == ArtifactStatus::Diagnostic <==> snapshot_result(
            s,
        ).violations.len() > 0,
        diagnostic_result(path, d).status == ArtifactStatus::Diagnostic,
        diagnostic_result(path, d).violations.len() > 0,
{
}

} // verus!
