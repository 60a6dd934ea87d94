//! Validation use cases: each discovers candidates once, validates them
//! structurally, adds its repository-wide findings to the results of the
//! artifacts they concern, and orders the report.
use crate::artifact::{ArtifactSnapshot, SnapshotView};
use crate::copy::{view_seq, Duplicate};
use crate::cycles::{
    cycle_listing, edges_of, lists_cycles, relationship_cycle_findings, validate_relationship_cycles,
    CycleFamily,
};
use crate::diagnostic::{DiagView, Diagnostic, StableOrder};
use crate::identity::{identity_findings, validate_identities};
use crate::order::sorted_by;
use crate::ports::{ArtifactCandidate, ArtifactIdentitySource, ArtifactSource, CandidateView, ValidationError};
use crate::reciprocal::{reciprocal_findings, validate_reciprocal_relationships};
use crate::relationships::{relationship_findings, validate_relationships};
use crate::report::{
    diagnostic_result, empty_candidate_diagnostic, report_of, snapshot_result, status_of,
    ArtifactResult, ReportView, ResultView, ValidationReport,
};
use vstd::prelude::*;

verus! {

/// The structural result of one candidate: its snapshot validated, its
/// source diagnostic, or an internal finding when it has neither.
pub open spec fn candidate_result(c: CandidateView) -> ResultView {
    match (c.snapshot, c.diagnostic) {
        (Some(s), _) => snapshot_result(s),
        (None, Some(d)) => diagnostic_result(c.path, d),
        (None, None) => diagnostic_result(c.path, empty_candidate_diagnostic(c.path)),
    }
}

/// The structural report of a candidate list.
pub open spec fn candidates_report(cs: Seq<CandidateView>) -> ReportView {
    report_of(cs.map_values(|c: CandidateView| candidate_result(c)))
}

/// The snapshots among the candidates, in order.
pub open spec fn candidate_snapshots(cs: Seq<CandidateView>) -> Seq<SnapshotView> {
    cs.flat_map(
        |c: CandidateView|
            match c.snapshot {
                Some(s) => seq![s],
                None => seq![],
            },
    )
}

/// The findings on one path.
pub open spec fn findings_for(path: Seq<char>, findings: Seq<DiagView>) -> Seq<DiagView> {
    findings.flat_map(
        |d: DiagView|
            if d.path == path {
                seq![d]
            } else {
                seq![]
            },
    )
}

/// A result with the findings on its path added, in the stable order.
pub open spec fn merged(r: ResultView, findings: Seq<DiagView>) -> ResultView {
    let v = sorted_by::<Diagnostic, StableOrder>(r.violations + findings_for(r.path, findings));
    ResultView { path: r.path, kind: r.kind, id: r.id, status: status_of(v), violations: v }
}

/// The report of the candidates with repository-wide findings merged in.
pub open spec fn merged_report(cs: Seq<CandidateView>, findings: Seq<DiagView>) -> ReportView {
    report_of(cs.map_values(|c: CandidateView| merged(candidate_result(c), findings)))
}

/// The result of one candidate.
pub fn result_for_candidate(candidate: &ArtifactCandidate) -> (res: ArtifactResult)
    ensures
        res@ == candidate_result(candidate@),
{
    match (candidate.snapshot(), candidate.diagnostic()) {
        (Some(snapshot), _) => ArtifactResult::from_snapshot(snapshot),
        (None, Some(diagnostic)) => ArtifactResult::from_diagnostic(
            candidate.path().duplicate(),
            diagnostic.duplicate(),
        ),
        (None, None) => ArtifactResult::empty(candidate.path().duplicate()),
    }
}

/// The structural report of a candidate list.
pub fn report_for_candidates(candidates: &[ArtifactCandidate]) -> (res: ValidationReport)
    ensures
        res@ == candidates_report(view_seq(candidates@)),
{
    let ghost cs = view_seq(candidates@);
    let mut results: Vec<ArtifactResult> = Vec::new();
    let mut i: usize = 0;
    while i < candidates.len()
        invariant
            i <= candidates@.len(),
            cs == view_seq(candidates@),
            view_seq(results@) == cs.take(i as int).map_values(|c: CandidateView| candidate_result(c)),
        decreases candidates@.len() - i,
    {
        let r = result_for_candidate(&candidates[i]);
        proof {
            assert(candidates@[i as int]@ == cs[i as int]);
            crate::copy::lemma_view_seq_push(results@, r);
            assert(cs.take(i + 1).map_values(|c: CandidateView| candidate_result(c)) =~= cs.take(
                i as int,
            ).map_values(|c: CandidateView| candidate_result(c)).push(candidate_result(cs[i as int])));
        }
        results.push(r);
        i = i + 1;
    }
    proof {
        assert(cs.take(i as int) =~= cs);
    }
    ValidationReport::from_results(results)
}

/// The snapshots among the candidates.
pub fn snapshots_of(candidates: &[ArtifactCandidate]) -> (res: Vec<ArtifactSnapshot>)
    ensures
        view_seq(res@) == candidate_snapshots(view_seq(candidates@)),
{
    let ghost cs = view_seq(candidates@);
    let mut out: Vec<ArtifactSnapshot> = Vec::new();
    let mut i: usize = 0;
    while i < candidates.len()
        invariant
            i <= candidates@.len(),
            cs == view_seq(candidates@),
            view_seq(out@) == candidate_snapshots(cs.take(i as int)),
        decreases candidates@.len() - i,
    {
        proof {
            assert(candidates@[i as int]@ == cs[i as int]);
            cs.lemma_flat_map_take_append(
                |c: CandidateView|
                    match c.snapshot {
                        Some(s) => seq![s],
                        None => seq![],
                    },
                i as int,
            );
        }
        match candidates[i].snapshot() {
            Some(s) => {
                let copy = s.duplicate();
                proof {
                    crate::copy::lemma_view_seq_push(out@, copy);
                }
                out.push(copy);
            },
            None => {
                assert(view_seq(out@) =~= view_seq(out@) + Seq::<SnapshotView>::empty());
            },
        }
        i = i + 1;
    }
    proof {
        assert(cs.take(i as int) =~= cs);
    }
    out
}

/// The findings on one path.
fn findings_on(path: &str, findings: &[Diagnostic]) -> (res: Vec<Diagnostic>)
    ensures
        view_seq(res@) == findings_for(path@, view_seq(findings@)),
{
    let ghost fs = view_seq(findings@);
    let mut out: Vec<Diagnostic> = Vec::new();
    let mut i: usize = 0;
    while i < findings.len()
        invariant
            i <= findings@.len(),
            fs == view_seq(findings@),
            view_seq(out@) == findings_for(path@, fs.take(i as int)),
        decreases findings@.len() - i,
    {
        proof {
            assert(findings@[i as int]@ == fs[i as int]);
            fs.lemma_flat_map_take_append(
                |d: DiagView|
                    if d.path == path@ {
                        seq![d]
                    } else {
                        seq![]
                    },
                i as int,
            );
        }
        if crate::text::text_eq(findings[i].path().as_str(), path) {
            let copy = findings[i].duplicate();
            proof {
                crate::copy::lemma_view_seq_push(out@, copy);
            }
            out.push(copy);
        } else {
            assert(view_seq(out@) =~= view_seq(out@) + Seq::<DiagView>::empty());
        }
        i = i + 1;
    }
    proof {
        assert(fs.take(i as int) =~= fs);
    }
    out
}

/// The report of the candidates with repository-wide findings merged into
/// the results of the paths they concern.
pub fn merged_report_for(candidates: &[ArtifactCandidate], findings: &[Diagnostic]) -> (res: ValidationReport)
    ensures
        res@ == merged_report(view_seq(candidates@), view_seq(findings@)),
{
    let ghost cs = view_seq(candidates@);
    let ghost fs = view_seq(findings@);
    let mut results: Vec<ArtifactResult> = Vec::new();
    let mut i: usize = 0;
    while i < candidates.len()
        invariant
            i <= candidates@.len(),
            cs == view_seq(candidates@),
            fs == view_seq(findings@),
            view_seq(results@) == cs.take(i as int).map_values(
                |c: CandidateView| merged(candidate_result(c), fs),
            ),
        decreases candidates@.len() - i,
    {
        let base = result_for_candidate(&candidates[i]);
        let extra = findings_on(base.path().as_str(), findings);
        let r = base.with_diagnostics(extra);
        proof {
            assert(candidates@[i as int]@ == cs[i as int]);
            crate::copy::lemma_view_seq_push(results@, r);
            assert(cs.take(i + 1).map_values(|c: CandidateView| merged(candidate_result(c), fs))
                =~= cs.take(i as int).map_values(|c: CandidateView| merged(candidate_result(c), fs)).push(
                merged(candidate_result(cs[i as int]), fs),
            ));
        }
        results.push(r);
        i = i + 1;
    }
    proof {
        assert(cs.take(i as int) =~= cs);
    }
    ValidationReport::from_results(results)
}

/// The identity report of a candidate list.
pub fn identity_report(candidates: &[ArtifactCandidate]) -> (res: ValidationReport)
    ensures
        res@ == merged_report(
            view_seq(candidates@),
            identity_findings(candidate_snapshots(view_seq(candidates@))),
        ),
{
    let snapshots = snapshots_of(candidates);
    let findings = validate_identities(snapshots.as_slice());
    merged_report_for(candidates, findings.as_slice())
}

/// The relationship report of a candidate list.
pub fn relationship_report(candidates: &[ArtifactCandidate]) -> (res: ValidationReport)
    ensures
        res@ == merged_report(
            view_seq(candidates@),
            relationship_findings(candidate_snapshots(view_seq(candidates@))),
        ),
{
    let snapshots = snapshots_of(candidates);
    let findings = validate_relationships(snapshots.as_slice());
    merged_report_for(candidates, findings.as_slice())
}

/// The reciprocity report of a candidate list: relationship targets and
/// reciprocal membership.
pub fn reciprocal_report(candidates: &[ArtifactCandidate]) -> (res: ValidationReport)
    ensures
        res@ == merged_report(
            view_seq(candidates@),
            relationship_findings(candidate_snapshots(view_seq(candidates@))) + reciprocal_findings(
                candidate_snapshots(view_seq(candidates@)),
            ),
        ),
{
    let snapshots = snapshots_of(candidates);
    let mut findings = validate_relationships(snapshots.as_slice());
    let mut more = validate_reciprocal_relationships(snapshots.as_slice());
    let ghost a = view_seq(findings@);
    let ghost b = view_seq(more@);
    findings.append(&mut more);
    proof {
        assert(view_seq(findings@) =~= a + b);
    }
    merged_report_for(candidates, findings.as_slice())
}

/// The findings of cycle-aware validation of a repository: relationship
/// targets, reciprocal membership and relationship cycles.
pub open spec fn cycle_aware_findings(s: Seq<SnapshotView>) -> Seq<DiagView> {
    relationship_findings(s) + reciprocal_findings(s) + relationship_cycle_findings(s)
}

/// Every graph of the repository has a listing of its cycles.
pub open spec fn cycles_listable(s: Seq<SnapshotView>) -> bool {
    &&& lists_cycles(
        edges_of(s, CycleFamily::Parent),
        cycle_listing(edges_of(s, CycleFamily::Parent)),
    )
    &&& lists_cycles(
        edges_of(s, CycleFamily::Dependency),
        cycle_listing(edges_of(s, CycleFamily::Dependency)),
    )
    &&& lists_cycles(
        edges_of(s, CycleFamily::Supersession),
        cycle_listing(edges_of(s, CycleFamily::Supersession)),
    )
}

/// The cycle report of a candidate list: relationship targets, reciprocal
/// membership and relationship cycles.
pub fn cycle_report_for(candidates: &[ArtifactCandidate]) -> (res: ValidationReport)
    ensures
        cycles_listable(candidate_snapshots(view_seq(candidates@))),
        res@ == merged_report(
            view_seq(candidates@),
            cycle_aware_findings(candidate_snapshots(view_seq(candidates@))),
        ),
{
    let snapshots = snapshots_of(candidates);
    let mut findings = validate_relationships(snapshots.as_slice());
    let mut more = validate_reciprocal_relationships(snapshots.as_slice());
    let mut cycles = validate_relationship_cycles(snapshots.as_slice());
    let ghost a = view_seq(findings@);
    let ghost b = view_seq(more@);
    let ghost c = view_seq(cycles@);
    findings.append(&mut more);
    findings.append(&mut cycles);
    proof {
        assert(view_seq(findings@) =~= a + b + c);
    }
    merged_report_for(candidates, findings.as_slice())
}

/// What the structural validation of a discovery result gives: the report
/// of the discovered candidates, or the discovery error unchanged.
pub fn structural_outcome(discovered: Result<Vec<ArtifactCandidate>, ValidationError>) -> (res: Result<
    ValidationReport,
    ValidationError,
>)
    ensures
        match discovered {
            Ok(cs) => res is Ok && res->Ok_0@ == candidates_report(view_seq(cs@)),
            Err(e) => res == Err::<ValidationReport, ValidationError>(e),
        },
{
    match discovered {
        Ok(candidates) => Ok(report_for_candidates(candidates.as_slice())),
        Err(error) => Err(error),
    }
}

/// What identity validation of a discovery result gives: the structural
/// report with the identity findings merged in, or the discovery error
/// unchanged.
pub fn identity_outcome(discovered: Result<Vec<ArtifactCandidate>, ValidationError>) -> (res: Result<
    ValidationReport,
    ValidationError,
>)
    ensures
        match discovered {
            Ok(cs) => res is Ok && res->Ok_0@ == merged_report(
                view_seq(cs@),
                identity_findings(candidate_snapshots(view_seq(cs@))),
            ),
            Err(e) => res == Err::<ValidationReport, ValidationError>(e),
        },
{
    match discovered {
        Ok(candidates) => Ok(identity_report(candidates.as_slice())),
        Err(error) => Err(error),
    }
}

/// What relationship validation of a discovery result gives: the structural
/// report with the target findings merged in, or the discovery error
/// unchanged.
pub fn relationship_outcome(discovered: Result<Vec<ArtifactCandidate>, ValidationError>) -> (res:
    Result<ValidationReport, ValidationError>)
    ensures
        match discovered {
            Ok(cs) => res is Ok && res->Ok_0@ == merged_report(
                view_seq(cs@),
                relationship_findings(candidate_snapshots(view_seq(cs@))),
            ),
            Err(e) => res == Err::<ValidationReport, ValidationError>(e),
        },
{
    match discovered {
        Ok(candidates) => Ok(relationship_report(candidates.as_slice())),
        Err(error) => Err(error),
    }
}

/// What reciprocity validation of a discovery result gives: the structural
/// report with the target and reciprocity findings merged in, or the
/// discovery error unchanged.
pub fn reciprocal_outcome(discovered: Result<Vec<ArtifactCandidate>, ValidationError>) -> (res: Result<
    ValidationReport,
    ValidationError,
>)
    ensures
        match discovered {
            Ok(cs) => res is Ok && res->Ok_0@ == merged_report(
                view_seq(cs@),
                relationship_findings(candidate_snapshots(view_seq(cs@))) + reciprocal_findings(
                    candidate_snapshots(view_seq(cs@)),
                ),
            ),
            Err(e) => res == Err::<ValidationReport, ValidationError>(e),
        },
{
    match discovered {
        Ok(candidates) => Ok(reciprocal_report(candidates.as_slice())),
        Err(error) => Err(error),
    }
}

/// What cycle-aware validation of a discovery result gives: the structural
/// report with the target, reciprocity and cycle findings merged in, or the
/// discovery error unchanged.
pub fn cycle_outcome(discovered: Result<Vec<ArtifactCandidate>, ValidationError>) -> (res: Result<
    ValidationReport,
    ValidationError,
>)
    ensures
        match discovered {
            Ok(cs) => res is Ok && cycles_listable(candidate_snapshots(view_seq(cs@)))
                && res->Ok_0@ == merged_report(
                view_seq(cs@),
                cycle_aware_findings(candidate_snapshots(view_seq(cs@))),
            ),
            Err(e) => res == Err::<ValidationReport, ValidationError>(e),
        },
{
    match discovered {
        Ok(candidates) => Ok(cycle_report_for(candidates.as_slice())),
        Err(error) => Err(error),
    }
}

/// Validates all candidates supplied by an [`ArtifactSource`].
pub struct Validator<S> {
    source: S,
}

impl<S: ArtifactSource> Validator<S> {
    /// Creates a validator with an injected source.
    pub fn new(source: S) -> (res: Self)
        ensures
            res.source() == source,
    {
        Validator { source }
    }

    /// The injected source.
    pub closed spec fn source(&self) -> S {
        self.source
    }

    /// Validates every supplied candidate; a discovery error is returned
    /// as is, otherwise the report is that of the discovered candidates.
    pub fn validate(&self) -> (res: Result<ValidationReport, ValidationError>)
        ensures
            res is Ok ==> exists|cs: Seq<CandidateView>| res->Ok_0@ == candidates_report(cs),
    {
        structural_outcome(self.source.discover())
    }
}

/// Validates repository-wide artifact identities.
pub struct IdentityValidator<S> {
    source: S,
}

impl<S: ArtifactIdentitySource> IdentityValidator<S> {
    /// Creates a validator with an injected identity source.
    pub fn new(source: S) -> (res: Self)
        ensures
            res.source() == source,
    {
        IdentityValidator { source }
    }

    /// The injected source.
    pub closed spec fn source(&self) -> S {
        self.source
    }

    /// Discovers candidates once and reports structural and identity
    /// findings; a discovery error is returned as is.
    pub fn validate(&self) -> (res: Result<ValidationReport, ValidationError>)
        ensures
            res is Ok ==> exists|cs: Seq<CandidateView>| res->Ok_0@ == merged_report(
                cs,
                identity_findings(candidate_snapshots(cs)),
            ),
    {
        identity_outcome(self.source.discover_identities())
    }
}

/// Validates relationship targets across the repository.
pub struct RelationshipValidator<S> {
    source: S,
}

impl<S: ArtifactIdentitySource> RelationshipValidator<S> {
    /// Creates a validator with an injected identity source.
    pub fn new(source: S) -> (res: Self)
        ensures
            res.source() == source,
    {
        RelationshipValidator { source }
    }

    /// The injected source.
    pub closed spec fn source(&self) -> S {
        self.source
    }

    /// Discovers candidates once and reports structural and relationship
    /// target findings; a discovery error is returned as is.
    pub fn validate(&self) -> (res: Result<ValidationReport, ValidationError>)
        ensures
            res is Ok ==> exists|cs: Seq<CandidateView>| res->Ok_0@ == merged_report(
                cs,
                relationship_findings(candidate_snapshots(cs)),
            ),
    {
        relationship_outcome(self.source.discover_identities())
    }
}

/// Validates relationship targets and reciprocal relationships.
pub struct ReciprocalRelationshipValidator<S> {
    source: S,
}

impl<S: ArtifactIdentitySource> ReciprocalRelationshipValidator<S> {
    /// Creates a validator with an injected identity source.
    pub fn new(source: S) -> (res: Self)
        ensures
            res.source() == source,
    {
        ReciprocalRelationshipValidator { source }
    }

    /// The injected source.
    pub closed spec fn source(&self) -> S {
        self.source
    }

    /// Discovers candidates once and reports structural, target and
    /// reciprocity findings; a discovery error is returned as is.
    pub fn validate(&self) -> (res: Result<ValidationReport, ValidationError>)
        ensures
            res is Ok ==> exists|cs: Seq<CandidateView>| res->Ok_0@ == merged_report(
                cs,
                relationship_findings(candidate_snapshots(cs)) + reciprocal_findings(
                    candidate_snapshots(cs),
                ),
            ),
    {
        reciprocal_outcome(self.source.discover_identities())
    }
}

/// Validates relationship targets, reciprocity and cycles.
pub struct CycleValidator<S> {
    source: S,
}

impl<S: ArtifactIdentitySource> CycleValidator<S> {
    /// Creates a validator with an injected identity source.
    pub fn new(source: S) -> (res: Self)
        ensures
            res.source() == source,
    {
        CycleValidator { source }
    }

    /// The injected source.
    pub closed spec fn source(&self) -> S {
        self.source
    }

    /// Discovers candidates once and reports structural, target,
    /// reciprocity and cycle findings; a discovery error is returned as is.
    pub fn validate(&self) -> (res: Result<ValidationReport, ValidationError>)
        ensures
            res is Ok ==> exists|cs: Seq<CandidateView>|
                cycles_listable(candidate_snapshots(cs)) && res->Ok_0@ == merged_report(
                    cs,
                    cycle_aware_findings(candidate_snapshots(cs)),
                ),
    {
        cycle_outcome(self.source.discover_identities())
    }
}

// ---------------------------------------------------------------------------
// Laws of the reports
// ---------------------------------------------------------------------------
/// The merged report has one result per candidate: every candidate's result
/// is in it, and keeps each of the candidate's own violations and each
/// finding on its path.
pub proof fn lemma_merged_report_retains(cs: Seq<CandidateView>, findings: Seq<DiagView>, i: int)
    requires
        0 <= i < cs.len(),
    ensures
        merged_report(cs, findings).artifacts.len() == cs.len(),
        merged_report(cs, findings).artifacts.contains(merged(candidate_result(cs[i]), findings)),
        merged(candidate_result(cs[i]), findings).path == candidate_result(cs[i]).path,
        forall|d: DiagView|
            candidate_result(cs[i]).violations.contains(d) ==> merged(
                candidate_result(cs[i]),
                findings,
            ).violations.contains(d),
        forall|d: DiagView|
            findings.contains(d) && d.path == candidate_result(cs[i]).path ==> merged(
                candidate_result(cs[i]),
                findings,
            ).violations.contains(d),
{
    let results = cs.map_values(|c: CandidateView| merged(candidate_result(c), findings));
    let r = candidate_result(cs[i]);
    let m = merged(r, findings);
    assert(results[i] == m);
    assert(results.contains(m));
    crate::order::lemma_sorted_by_contains::<ArtifactResult, crate::report::ReportOrder>(results, m);
    crate::order::lemma_sorted_by_permutation::<ArtifactResult, crate::report::ReportOrder>(results);
    let g = |d: DiagView|
        if d.path == r.path {
            seq![d]
        } else {
            seq![]
        };
    let fd = findings_for(r.path, findings);
    let all = r.violations + fd;
    assert forall|d: DiagView| r.violations.contains(d) implies m.violations.contains(d) by {
        let k = choose|k: int| 0 <= k < r.violations.len() && r.violations[k] == d;
        assert(all[k] == d);
        crate::order::lemma_sorted_by_contains::<Diagnostic, StableOrder>(all, d);
    }
    assert forall|d: DiagView| findings.contains(d) && d.path == r.path implies m.violations.contains(d) by {
        assert(g(d).contains(d)) by {
            assert(g(d)[0] == d);
        }
        crate::order::lemma_flat_map_has(findings, g, d, d);
        let k = choose|k: int| 0 <= k < fd.len() && fd[k] == d;
        assert(all[r.violations.len() + k] == d);
        crate::order::lemma_sorted_by_contains::<Diagnostic, StableOrder>(all, d);
    }
}

/// A repository-wide finding on a candidate's path fails that candidate's
/// result and the report.
pub proof fn lemma_finding_fails_report(cs: Seq<CandidateView>, findings: Seq<DiagView>, i: int, d: DiagView)
    requires
        0 <= i < cs.len(),
        findings.contains(d),
        d.path == candidate_result(cs[i]).path,
    ensures
        merged(candidate_result(cs[i]), findings).status == crate::report::ArtifactStatus::Diagnostic,
        merged_report(cs, findings).status == crate::report::OverallStatus::Failure,
{
    lemma_merged_report_retains(cs, findings, i);
    let results = cs.map_values(|c: CandidateView| merged(candidate_result(c), findings));
    assert(results[i] == merged(candidate_result(cs[i]), findings));
    assert(merged(candidate_result(cs[i]), findings).violations.contains(d));
}

/// The candidates' results have distinct paths.
pub open spec fn distinct_result_paths(cs: Seq<CandidateView>) -> bool {
    forall|i: int, j: int|
        0 <= i < cs.len() && 0 <= j < cs.len() && i != j ==> candidate_result(#[trigger] cs[i]).path
            != candidate_result(#[trigger] cs[j]).path
}

/// For candidates with distinct paths, the merged report does not depend on
/// the order in which the candidates arrive.
pub proof fn lemma_merged_report_order_independent(
    cs1: Seq<CandidateView>,
    cs2: Seq<CandidateView>,
    findings: Seq<DiagView>,
)
    requires
        cs1.to_multiset() == cs2.to_multiset(),
        distinct_result_paths(cs1),
    ensures
        merged_report(cs1, findings) == merged_report(cs2, findings),
{
    let f = |c: CandidateView| merged(candidate_result(c), findings);
    let r1 = cs1.map_values(f);
    let r2 = cs2.map_values(f);
    crate::order::lemma_map_values_permutation(cs1, cs2, f);
    assert forall|a: ResultView, b: ResultView|
        r1.contains(a) && r1.contains(b) && !crate::report::result_lt(a, b) && !crate::report::result_lt(
            b,
            a,
        ) implies a == b by {
        let i = choose|i: int| 0 <= i < r1.len() && r1[i] == a;
        let j = choose|j: int| 0 <= j < r1.len() && r1[j] == b;
        crate::diagnostic::lemma_lex_lt_facts(a.path, b.path, a.path);
        if let (Some(x), Some(y)) = (a.id, b.id) {
            crate::diagnostic::lemma_lex_lt_facts(x, y, x);
        }
        assert(a.path == b.path);
        assert(cs1[i] == cs1[j]) by {
            if i != j {
                assert(candidate_result(cs1[i]).path != candidate_result(cs1[j]).path);
            }
        }
    }
    crate::report::lemma_report_order_independent(r1, r2);
}

/// The snapshots among candidates that are permutations of one another are
/// permutations of one another.
pub proof fn lemma_candidate_snapshots_permutation(cs1: Seq<CandidateView>, cs2: Seq<CandidateView>)
    requires
        cs1.to_multiset() == cs2.to_multiset(),
    ensures
        candidate_snapshots(cs1).to_multiset() == candidate_snapshots(cs2).to_multiset(),
{
    crate::order::lemma_flat_map_permutation(
        cs1,
        cs2,
        |c: CandidateView|
            match c.snapshot {
                Some(s) => seq![s],
                None => seq![],
            },
    );
}

/// Identity validation of candidates with distinct paths does not depend on
/// the order in which the source supplies them.
pub proof fn lemma_identity_report_order_independent(cs1: Seq<CandidateView>, cs2: Seq<CandidateView>)
    requires
        cs1.to_multiset() == cs2.to_multiset(),
        distinct_result_paths(cs1),
    ensures
        merged_report(cs1, identity_findings(candidate_snapshots(cs1))) == merged_report(
            cs2,
            identity_findings(candidate_snapshots(cs2)),
        ),
{
    lemma_candidate_snapshots_permutation(cs1, cs2);
    crate::identity::lemma_identity_findings_order_independent(
        candidate_snapshots(cs1),
        candidate_snapshots(cs2),
    );
    lemma_merged_report_order_independent(cs1, cs2, identity_findings(candidate_snapshots(cs1)));
}

/// Cycle-aware validation of candidates with distinct paths does not depend
/// on the order in which the source supplies them: its report is one and the
/// same.
pub proof fn lemma_cycle_validation_order_independent(cs1: Seq<CandidateView>, cs2: Seq<CandidateView>)
    requires
        cs1.to_multiset() == cs2.to_multiset(),
        distinct_result_paths(cs1),
        cycles_listable(candidate_snapshots(cs1)),
        cycles_listable(candidate_snapshots(cs2)),
    ensures
        merged_report(cs1, cycle_aware_findings(candidate_snapshots(cs1))) == merged_report(
            cs2,
            cycle_aware_findings(candidate_snapshots(cs2)),
        ),
{
    let s1 = candidate_snapshots(cs1);
    let s2 = candidate_snapshots(cs2);
    lemma_candidate_snapshots_permutation(cs1, cs2);
    crate::relationships::lemma_relationship_findings_order_independent(s1, s2);
    crate::reciprocal::lemma_reciprocal_findings_order_independent(s1, s2);
    crate::cycles::lemma_cycle_report_order_independent(
        s1,
        s2,
        cycle_listing(edges_of(s1, CycleFamily::Parent)),
        cycle_listing(edges_of(s1, CycleFamily::Dependency)),
        cycle_listing(edges_of(s1, CycleFamily::Supersession)),
        cycle_listing(edges_of(s2, CycleFamily::Parent)),
        cycle_listing(edges_of(s2, CycleFamily::Dependency)),
        cycle_listing(edges_of(s2, CycleFamily::Supersession)),
    );
    lemma_merged_report_order_independent(cs1, cs2, cycle_aware_findings(s1));
}

} // verus!
