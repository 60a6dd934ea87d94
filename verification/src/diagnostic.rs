//! Diagnostics: one actionable finding, its location, rule and severity.
use crate::artifact::ArtifactPath;
use crate::order::Order;
use crate::text::{lemma_lex_antisym, lemma_lex_total, lemma_lex_trans, lex_lt, lines, owned, text_eq, text_le};
use std::cmp::Ordering;
use crate::copy::Duplicate;
use vstd::prelude::*;

verus! {

/// Identifies the source location of a diagnostic.
#[derive(Clone, Copy, Debug, PartialEq, Eq, Structural, PartialOrd, Ord, Hash)]
pub struct Location {
    line: usize,
    column: Option<usize>,
}

impl Location {
    /// Creates a one-based source location.
    pub fn new(line: usize, column: Option<usize>) -> (res: Self)
        ensures
            res.line_of() == line,
            res.column_of() == column,
    {
        Location { line, column }
    }

    /// The line of a location.
    pub closed spec fn line_of(self) -> usize {
        self.line
    }

    /// The column of a location.
    pub closed spec fn column_of(self) -> Option<usize> {
        self.column
    }

    /// Returns the one-based line number.
    pub fn line(self) -> (res: usize)
        ensures
            res == self.line_of(),
    {
        self.line
    }

    /// Returns the optional one-based column number.
    pub fn column(self) -> (res: Option<usize>)
        ensures
            res == self.column_of(),
    {
        self.column
    }
}

/// The location of a whole line.
pub closed spec fn at_line(line: usize) -> Location {
    Location { line, column: None }
}

/// A location without a column is the location of its line.
pub proof fn lemma_at_line(l: Location, line: usize)
    ensures
        (l.line_of() == line && l.column_of() is None) <==> l == at_line(line),
        at_line(line).line_of() == line,
        at_line(line).column_of() is None,
{
}

/// Two locations are equal when their lines and columns are.
pub proof fn lemma_location_ext(a: Location, b: Location)
    ensures
        a.line_of() == b.line_of() && a.column_of() == b.column_of() ==> a == b,
{
}

/// Identifies a stable validation rule.
#[derive(Clone, Debug, PartialEq, Eq, PartialOrd, Ord, Hash)]
pub struct RuleId(String);

impl View for RuleId {
    type V = Seq<char>;

    closed spec fn view(&self) -> Seq<char> {
        self.0@
    }
}

impl Duplicate for RuleId {
    fn duplicate(&self) -> (res: Self) {
        RuleId(self.0.duplicate())
    }
}

impl RuleId {
    /// Creates a stable rule identifier.
    pub fn new(value: &str) -> (res: Self)
        ensures
            res@ == value@,
    {
        RuleId(owned(value))
    }

    /// Creates a rule identifier that owns its text.
    pub fn from_string(value: String) -> (res: Self)
        ensures
            res@ == value@,
    {
        RuleId(value)
    }

    /// Returns the rule identifier text.
    pub fn as_str(&self) -> (res: &str)
        ensures
            res@ == self@,
    {
        self.0.as_str()
    }
}

/// Describes diagnostic severity.
#[derive(Clone, Copy, Debug, PartialEq, Eq, Structural, PartialOrd, Ord, Hash)]
pub enum Severity {
    /// A non-fatal-looking issue that still fails this validator's strict contract.
    Warning,
    /// A direct validation failure.
    Error,
}

/// The mathematical content of a diagnostic.
pub struct DiagView {
    pub path: Seq<char>,
    pub location: Option<Location>,
    pub rule: Seq<char>,
    pub severity: Severity,
    pub message: Seq<char>,
    pub remediation: Seq<char>,
}

/// Reports one actionable validation violation.
#[derive(Clone, Debug, PartialEq, Eq)]
pub struct Diagnostic {
    path: ArtifactPath,
    location: Option<Location>,
    rule_id: RuleId,
    severity: Severity,
    message: String,
    remediation: String,
}

impl View for Diagnostic {
    type V = DiagView;

    closed spec fn view(&self) -> DiagView {
        DiagView {
            path: self.path@,
            location: self.location,
            rule: self.rule_id@,
            severity: self.severity,
            message: self.message@,
            remediation: self.remediation@,
        }
    }
}

impl Duplicate for Diagnostic {
    fn duplicate(&self) -> (res: Self) {
        Diagnostic {
            path: self.path.duplicate(),
            location: self.location,
            rule_id: self.rule_id.duplicate(),
            severity: self.severity,
            message: self.message.duplicate(),
            remediation: self.remediation.duplicate(),
        }
    }
}

/// The content of a diagnostic built from its parts.
pub open spec fn diag_view(
    path: Seq<char>,
    location: Option<Location>,
    rule: Seq<char>,
    severity: Severity,
    message: Seq<char>,
    remediation: Seq<char>,
) -> DiagView {
    DiagView { path, location, rule, severity, message, remediation }
}

/// Locations in order: no location first, then by line, then by column with
/// no column first.
pub open spec fn location_lt(a: Option<Location>, b: Option<Location>) -> bool {
    match (a, b) {
        (None, Some(_)) => true,
        (Some(x), Some(y)) => x.line_of() < y.line_of() || (x.line_of() == y.line_of() && match (
            x.column_of(),
            y.column_of(),
        ) {
            (None, Some(_)) => true,
            (Some(c), Some(d)) => c < d,
            _ => false,
        }),
        _ => false,
    }
}

/// Severity order: a warning before an error.
pub open spec fn severity_lt(a: Severity, b: Severity) -> bool {
    a == Severity::Warning && b == Severity::Error
}

/// The stable order of diagnostics: by rule, then location, severity and
/// message.
pub open spec fn stable_lt(a: DiagView, b: DiagView) -> bool {
    ||| lex_lt(a.rule, b.rule)
    ||| a.rule == b.rule && location_lt(a.location, b.location)
    ||| a.rule == b.rule && a.location == b.location && severity_lt(a.severity, b.severity)
    ||| a.rule == b.rule && a.location == b.location && a.severity == b.severity && lex_lt(
        a.message,
        b.message,
    )
}

/// `a` and `b` agree on every key of the stable order.
pub open spec fn stable_eq(a: DiagView, b: DiagView) -> bool {
    a.rule == b.rule && a.location == b.location && a.severity == b.severity && a.message
        == b.message
}

/// Properties of the lexicographic order used by the orders below.
pub proof fn lemma_lex_lt_facts(a: Seq<char>, b: Seq<char>, c: Seq<char>)
    ensures
        !lex_lt(a, a),
        lex_lt(a, b) && lex_lt(b, c) ==> lex_lt(a, c),
        lex_lt(a, b) ==> !lex_lt(b, a),
        !lex_lt(a, b) && !lex_lt(b, a) ==> a == b,
{
    lemma_lex_total(a, b);
    if lex_lt(a, b) && lex_lt(b, c) {
        lemma_lex_trans(a, b, c);
        if a == c {
            lemma_lex_antisym(a, b);
        }
    }
    if lex_lt(a, b) && lex_lt(b, a) {
        lemma_lex_antisym(a, b);
    }
}

/// `location_lt` is a strict total order.
pub proof fn lemma_location_lt_facts(a: Option<Location>, b: Option<Location>, c: Option<Location>)
    ensures
        !location_lt(a, a),
        location_lt(a, b) && location_lt(b, c) ==> location_lt(a, c),
        !location_lt(a, b) && !location_lt(b, a) ==> a == b,
{
    if a is Some && b is Some {
        lemma_location_ext(a->0, b->0);
    }
}

/// The stable order of diagnostics.
pub struct StableOrder;

impl Order<Diagnostic> for StableOrder {
    open spec fn before(a: DiagView, b: DiagView) -> bool {
        stable_lt(a, b)
    }

    proof fn lemma_transitive(a: DiagView, b: DiagView, c: DiagView) {
        lemma_lex_lt_facts(a.rule, b.rule, c.rule);
        lemma_lex_lt_facts(a.message, b.message, c.message);
        lemma_location_lt_facts(a.location, b.location, c.location);
    }

    proof fn lemma_irreflexive(a: DiagView) {
        lemma_lex_lt_facts(a.rule, a.rule, a.rule);
        lemma_lex_lt_facts(a.message, a.message, a.message);
        lemma_location_lt_facts(a.location, a.location, a.location);
    }

    fn precedes(a: &Diagnostic, b: &Diagnostic) -> (res: bool) {
        a.stable_before(b)
    }
}

/// `lex_lt` on strings.
pub fn text_lt(a: &str, b: &str) -> (res: bool)
    ensures
        res == lex_lt(a@, b@),
{
    text_le(a, b) && !text_eq(a, b)
}

/// `location_lt` on locations.
pub fn location_before(a: Option<Location>, b: Option<Location>) -> (res: bool)
    ensures
        res == location_lt(a, b),
{
    match (a, b) {
        (None, Some(_)) => true,
        (Some(x), Some(y)) => {
            if x.line < y.line {
                true
            } else if x.line == y.line {
                match (x.column, y.column) {
                    (None, Some(_)) => true,
                    (Some(c), Some(d)) => c < d,
                    _ => false,
                }
            } else {
                false
            }
        },
        _ => false,
    }
}

/// Equality of optional locations.
pub fn location_eq(a: Option<Location>, b: Option<Location>) -> (res: bool)
    ensures
        res == (a == b),
{
    match (a, b) {
        (None, None) => true,
        (Some(x), Some(y)) => {
            let same_column = match (x.column, y.column) {
                (None, None) => true,
                (Some(c), Some(d)) => c == d,
                _ => false,
            };
            x.line == y.line && same_column
        },
        _ => false,
    }
}

/// Equality of severities.
pub fn severity_eq(a: Severity, b: Severity) -> (res: bool)
    ensures
        res == (a == b),
{
    match (a, b) {
        (Severity::Warning, Severity::Warning) => true,
        (Severity::Error, Severity::Error) => true,
        _ => false,
    }
}

impl Diagnostic {
    /// Creates an actionable diagnostic.
    pub fn new(
        path: ArtifactPath,
        location: Option<Location>,
        rule_id: &str,
        severity: Severity,
        message: &str,
        remediation: &str,
    ) -> (res: Self)
        ensures
            res@ == diag_view(path@, location, rule_id@, severity, message@, remediation@),
    {
        Diagnostic {
            path,
            location,
            rule_id: RuleId::new(rule_id),
            severity,
            message: owned(message),
            remediation: owned(remediation),
        }
    }

    /// Creates a diagnostic from owned texts.
    pub fn from_parts(
        path: ArtifactPath,
        location: Option<Location>,
        rule_id: String,
        severity: Severity,
        message: String,
        remediation: String,
    ) -> (res: Self)
        ensures
            res@ == diag_view(path@, location, rule_id@, severity, message@, remediation@),
    {
        Diagnostic {
            path,
            location,
            rule_id: RuleId::from_string(rule_id),
            severity,
            message,
            remediation,
        }
    }

    /// Returns the diagnostic path.
    pub fn path(&self) -> (res: &ArtifactPath)
        ensures
            res@ == self@.path,
    {
        &self.path
    }

    /// Returns the optional source location.
    pub fn location(&self) -> (res: Option<Location>)
        ensures
            res == self@.location,
    {
        self.location
    }

    /// Returns the stable rule identifier.
    pub fn rule_id(&self) -> (res: &RuleId)
        ensures
            res@ == self@.rule,
    {
        &self.rule_id
    }

    /// Returns the diagnostic severity.
    pub fn severity(&self) -> (res: Severity)
        ensures
            res == self@.severity,
    {
        self.severity
    }

    /// Returns the actionable message.
    pub fn message(&self) -> (res: &str)
        ensures
            res@ == self@.message,
    {
        self.message.as_str()
    }

    /// Returns remediation guidance.
    pub fn remediation(&self) -> (res: &str)
        ensures
            res@ == self@.remediation,
    {
        self.remediation.as_str()
    }

    /// Whether this diagnostic strictly precedes `other` in the stable order.
    pub fn stable_before(&self, other: &Self) -> (res: bool)
        ensures
            res == stable_lt(self@, other@),
    {
        let a = self.rule_id.as_str();
        let b = other.rule_id.as_str();
        if text_lt(a, b) {
            return true;
        }
        if !text_eq(a, b) {
            return false;
        }
        if location_before(self.location, other.location) {
            return true;
        }
        if !location_eq(self.location, other.location) {
            return false;
        }
        if self.severity == Severity::Warning && other.severity == Severity::Error {
            return true;
        }
        if !severity_eq(self.severity, other.severity) {
            return false;
        }
        text_lt(self.message.as_str(), other.message.as_str())
    }

    /// Compares two diagnostics by rule, location, severity and message.
    pub fn stable_cmp(&self, other: &Self) -> (res: Ordering)
        ensures
            (res == Ordering::Less) == stable_lt(self@, other@),
            (res == Ordering::Greater) == stable_lt(other@, self@),
            (res == Ordering::Equal) == stable_eq(self@, other@),
    {
        proof {
            lemma_lex_lt_facts(self@.rule, other@.rule, self@.rule);
            lemma_lex_lt_facts(self@.message, other@.message, self@.message);
            lemma_location_lt_facts(self@.location, other@.location, self@.location);
        }
        if self.stable_before(other) {
            Ordering::Less
        } else if other.stable_before(self) {
            Ordering::Greater
        } else {
            Ordering::Equal
        }
    }
}

} // verus!
