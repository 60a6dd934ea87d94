//! Validation of software-design-document artifacts: typed artifact models,
//! structural rules, repository-wide identity, relationship, reciprocity and
//! cycle checks, and deterministic reports.
pub mod artifact;
pub mod copy;
pub mod cycles;
pub mod diagnostic;
pub mod discovery;
pub mod document;
pub mod identity;
pub mod order;
pub mod parser;
pub mod ports;
pub mod reciprocal;
pub mod relationships;
pub mod report;
pub mod rules;
pub mod text;
pub mod validate;

pub use artifact::{
    ArtifactId, ArtifactKind, ArtifactPath, ArtifactSnapshot, IdentifierError, Metadata,
    MetadataValue, PathError,
};
pub use cycles::validate_relationship_cycles;
pub use diagnostic::{Diagnostic, Location, RuleId, Severity};
pub use discovery::{candidate_for_read, discovered_path, is_excluded, sort_paths};
pub use document::{ChecklistItem, DocumentSnapshot, FeatureSnapshot, Heading, SourceLine};
pub use identity::{path_encoded_id, validate_identities};
pub use parser::parse_artifact;
pub use ports::{ArtifactCandidate, ArtifactIdentitySource, ArtifactSource, ValidationError};
pub use reciprocal::validate_reciprocal_relationships;
pub use relationships::validate_relationships;
pub use report::{ArtifactResult, ArtifactStatus, OverallStatus, ValidationReport};
pub use rules::validate_artifact;
pub use validate::{
    cycle_outcome, identity_outcome, reciprocal_outcome, relationship_outcome, structural_outcome,
    CycleValidator, IdentityValidator, ReciprocalRelationshipValidator, RelationshipValidator,
    Validator,
};
