//! The narrow ports through which validation receives artifact candidates.
use crate::artifact::{ArtifactPath, ArtifactSnapshot, SnapshotView};
use crate::copy::Duplicate;
use crate::diagnostic::{DiagView, Diagnostic};
use crate::text::{cat, owned};
use vstd::prelude::*;

verus! {

/// Describes an operational failure that prevents artifact discovery.
#[derive(Clone, Debug, PartialEq, Eq)]
#[non_exhaustive]
pub enum ValidationError {
    /// The source could not establish the repository artifact set.
    Discovery(String),
}

impl ValidationError {
    /// The text of the error message.
    pub open spec fn message_text(self) -> Seq<char> {
        match self {
            ValidationError::Discovery(m) => "artifact discovery failed: "@ + m@,
        }
    }

    /// Returns the error message.
    pub fn message(&self) -> (res: String)
        ensures
            res@ == self.message_text(),
    {
        match self {
            ValidationError::Discovery(m) => cat(owned("artifact discovery failed: "), m.as_str()),
        }
    }
}

/// Supplies every candidate at the canonical active artifact locations.
pub trait ArtifactSource {
    /// Returns candidates in any order; the validation report applies stable
    /// ordering. Per-file failures are candidate diagnostics; an error means
    /// that the repository-level candidate set could not be established.
    fn discover(&self) -> Result<Vec<ArtifactCandidate>, ValidationError>;
}

/// Supplies every candidate at the canonical active and historical identity
/// locations.
pub trait ArtifactIdentitySource {
    /// Returns candidates in any order; the report applies stable ordering.
    /// Per-file failures are candidate diagnostics; an error means that the
    /// repository-wide candidate set could not be established.
    fn discover_identities(&self) -> Result<Vec<ArtifactCandidate>, ValidationError>;
}

/// The content of a candidate.
pub struct CandidateView {
    pub path: Seq<char>,
    pub snapshot: Option<SnapshotView>,
    pub diagnostic: Option<DiagView>,
}

/// Represents one discovered artifact or one per-file source failure.
#[derive(Clone, Debug, PartialEq, Eq)]
pub struct ArtifactCandidate {
    path: ArtifactPath,
    snapshot: Option<ArtifactSnapshot>,
    diagnostic: Option<Diagnostic>,
}

impl View for ArtifactCandidate {
    type V = CandidateView;

    closed spec fn view(&self) -> CandidateView {
        CandidateView {
            path: self.path@,
            snapshot: match self.snapshot {
                Some(s) => Some(s@),
                None => None,
            },
            diagnostic: match self.diagnostic {
                Some(d) => Some(d@),
                None => None,
            },
        }
    }
}

impl Duplicate for ArtifactCandidate {
    fn duplicate(&self) -> (res: Self) {
        ArtifactCandidate {
            path: self.path.duplicate(),
            snapshot: match &self.snapshot {
                Some(s) => Some(s.duplicate()),
                None => None,
            },
            diagnostic: match &self.diagnostic {
                Some(d) => Some(d.duplicate()),
                None => None,
            },
        }
    }
}

impl ArtifactCandidate {
    /// Creates a candidate containing a normalized artifact snapshot.
    pub fn from_snapshot(snapshot: ArtifactSnapshot) -> (res: Self)
        ensures
            res@ == (CandidateView { path: snapshot@.path, snapshot: Some(snapshot@), diagnostic: None }),
    {
        ArtifactCandidate { path: snapshot.path().duplicate(), snapshot: Some(snapshot), diagnostic: None }
    }

    /// Creates a candidate containing a source-located per-file diagnostic.
    pub fn from_diagnostic(path: ArtifactPath, diagnostic: Diagnostic) -> (res: Self)
        ensures
            res@ == (CandidateView { path: path@, snapshot: None, diagnostic: Some(diagnostic@) }),
    {
        ArtifactCandidate { path, snapshot: None, diagnostic: Some(diagnostic) }
    }

    /// Returns the repository-relative candidate path.
    pub fn path(&self) -> (res: &ArtifactPath)
        ensures
            res@ == self@.path,
    {
        &self.path
    }

    /// Returns the normalized snapshot, when the source read and parse
    /// succeeded.
    pub fn snapshot(&self) -> (res: Option<&ArtifactSnapshot>)
        ensures
            res is Some <==> self@.snapshot is Some,
            res is Some ==> res->0@ == self@.snapshot->0,
    {
        self.snapshot.as_ref()
    }

    /// Returns the source diagnostic, when the candidate could not be
    /// normalized.
    pub fn diagnostic(&self) -> (res: Option<&Diagnostic>)
        ensures
            res is Some <==> self@.diagnostic is Some,
            res is Some ==> res->0@ == self@.diagnostic->0,
    {
        self.diagnostic.as_ref()
    }
}

} // verus!
