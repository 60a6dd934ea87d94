//! The decisions of repository discovery: which paths are skipped, the order
//! of discovered paths, and the candidate a read file or a read failure
//! becomes. Walking the file system is left to the caller.
use crate::artifact::{ArtifactKind, ArtifactPath, PathError};
use crate::copy::view_seq;
use crate::diagnostic::{diag_view, DiagView, Diagnostic, Severity};
use crate::identity::TextOrder;
use crate::order::{sort_stable, sorted_by};
use crate::parser::{parse_artifact, parsed_snapshot};
use crate::ports::{ArtifactCandidate, CandidateView, ValidationError};
use crate::text::{cat, chars_eq, chars_of, chars_split, chars_upper, owned, split, string_of, upper};
use vstd::prelude::*;

verus! {

broadcast use vstd::string::group_string_axioms;

/// Some segment of the path is `templates`, or `archive` when archives are
/// not included.
pub open spec fn excluded(relative: Seq<char>, include_archive: bool) -> bool {
    exists|i: int|
        0 <= i < split(relative, '/').len() && (#[trigger] split(relative, '/')[i] == "templates"@
            || (!include_archive && split(relative, '/')[i] == "archive"@))
}

/// Whether discovery skips a repository-relative path.
pub fn is_excluded(relative: &str, include_archive: bool) -> (res: bool)
    ensures
        res == excluded(relative@, include_archive),
{
    let chars = chars_of(relative);
    let parts = chars_split(chars.as_slice(), '/');
    let templates = chars_of("templates");
    let archive = chars_of("archive");
    let mut i: usize = 0;
    while i < parts.len()
        invariant
            i <= parts@.len(),
            parts@.map_values(|p: Vec<char>| p@) == split(relative@, '/'),
            templates@ == "templates"@,
            archive@ == "archive"@,
            forall|k: int|
                0 <= k < i ==> !(#[trigger] split(relative@, '/')[k] == "templates"@ || (
                !include_archive && split(relative@, '/')[k] == "archive"@)),
        decreases parts@.len() - i,
    {
        proof {
            assert(parts@[i as int]@ == split(relative@, '/')[i as int]);
        }
        let part = parts[i].as_slice();
        if chars_eq(part, templates.as_slice()) || (!include_archive && chars_eq(
            part,
            archive.as_slice(),
        )) {
            return true;
        }
        i = i + 1;
    }
    false
}

/// Discovered paths in text order.
pub fn sort_paths(paths: Vec<String>) -> (res: Vec<String>)
    ensures
        view_seq(res@) == sorted_by::<String, TextOrder>(view_seq(paths@)),
{
    sort_stable::<String, TextOrder>(paths)
}

/// The path of a discovered file, or the discovery error for a path that is
/// not repository-relative.
pub fn discovered_path(relative: &str) -> (res: Result<ArtifactPath, ValidationError>)
    ensures
        match res {
            Ok(p) => crate::artifact::valid_path(relative@) && p@ == relative@,
            Err(ValidationError::Discovery(m)) => !crate::artifact::valid_path(relative@) && m@ == "invalid discovered path `"@
                + relative@ + "`: "@ + (if relative@.len() == 0 {
                PathError::Empty
            } else {
                PathError::NotRepositoryRelative
            }).message_text(),
        },
{
    match ArtifactPath::try_new(relative) {
        Ok(p) => Ok(p),
        Err(error) => {
            let message = cat(
                cat(cat(owned("invalid discovered path `"), relative), "`: "),
                error.message().as_str(),
            );
            Err(ValidationError::Discovery(message))
        },
    }
}

/// The finding for a canonical file that could not be read.
pub open spec fn read_failure(path: Seq<char>, kind: ArtifactKind, error: Seq<char>) -> DiagView {
    diag_view(
        path,
        None,
        "ARTIFACT."@ + upper(kind.token_text()) + ".SOURCE_READ"@,
        Severity::Error,
        "artifact could not be read: "@ + error,
        "make the canonical artifact readable"@,
    )
}

/// The candidate of a canonical file: its parsed snapshot, or a finding
/// when reading it failed with the given error text.
pub fn candidate_for_read(path: ArtifactPath, kind: ArtifactKind, read: Result<String, String>) -> (res: ArtifactCandidate)
    ensures
        match read {
            Ok(contents) => exists|error: Seq<char>|
                res@ == (CandidateView {
                    path: path@,
                    snapshot: Some(parsed_snapshot(path@, kind, contents@, error)),
                    diagnostic: None,
                }),
            Err(error) => res@ == (CandidateView {
                path: path@,
                snapshot: None,
                diagnostic: Some(read_failure(path@, kind, error@)),
            }),
        },
{
    match read {
        Ok(contents) => ArtifactCandidate::from_snapshot(parse_artifact(path, kind, contents.as_str())),
        Err(error) => {
            let t = chars_of(kind.token());
            let up = chars_upper(t.as_slice());
            let up_text = string_of(up.as_slice());
            let rule = cat(cat(owned("ARTIFACT."), up_text.as_str()), ".SOURCE_READ");
            let diagnostic = Diagnostic::from_parts(
                crate::copy::Duplicate::duplicate(&path),
                None,
                rule,
                Severity::Error,
                cat(owned("artifact could not be read: "), error.as_str()),
                owned("make the canonical artifact readable"),
            );
            ArtifactCandidate::from_diagnostic(path, diagnostic)
        },
    }
}

} // verus!
