//! Artifact kinds, repository paths, identifiers, frontmatter metadata and
//! normalized artifact snapshots.
use crate::diagnostic::{DiagView, Diagnostic};
use crate::document::{DocView, DocumentSnapshot};
use crate::text::{char_is_digit, chars_eq, chars_have, chars_le, chars_numbered, chars_of, chars_split, chars_start_with, chars_strip_prefix, chars_strip_suffix, chars_three_digits, concat, is_digit, is_numbered, lemma_lex_total, lex_lt, lower, owned, split, starts_with, str_views, strip_prefix, strip_suffix, text_numbered, three_digits};
use crate::copy::{copy_all, view_seq, Duplicate};
use vstd::prelude::*;

verus! {

broadcast use vstd::string::group_string_axioms;

/// Identifies one of the artifact formats supported by the validator.
#[derive(Clone, Copy, Debug, PartialEq, Eq, Structural, Hash, PartialOrd, Ord)]
pub enum ArtifactKind {
    /// A product requirements document.
    Prd,
    /// An epic brief.
    Epic,
    /// A user story.
    UserStory,
    /// An executable Gherkin scenario file.
    Gherkin,
    /// A feature requirements document.
    Requirements,
    /// A feature design document.
    Design,
    /// An architecture decision record.
    Adr,
    /// An implementation task document.
    Task,
}

impl ArtifactKind {
    /// Artifact kinds in the required report order.
    pub const ALL: [ArtifactKind; 8] = [
        ArtifactKind::Prd,
        ArtifactKind::Epic,
        ArtifactKind::UserStory,
        ArtifactKind::Gherkin,
        ArtifactKind::Requirements,
        ArtifactKind::Design,
        ArtifactKind::Adr,
        ArtifactKind::Task,
    ];

    /// The position of a kind in the report order.
    pub open spec fn rank(self) -> nat {
        match self {
            ArtifactKind::Prd => 0,
            ArtifactKind::Epic => 1,
            ArtifactKind::UserStory => 2,
            ArtifactKind::Gherkin => 3,
            ArtifactKind::Requirements => 4,
            ArtifactKind::Design => 5,
            ArtifactKind::Adr => 6,
            ArtifactKind::Task => 7,
        }
    }

    /// The stable lower-case type token.
    pub open spec fn token_text(self) -> Seq<char> {
        match self {
            ArtifactKind::Prd => "prd"@,
            ArtifactKind::Epic => "epic"@,
            ArtifactKind::UserStory => "user-story"@,
            ArtifactKind::Gherkin => "gherkin"@,
            ArtifactKind::Requirements => "requirements"@,
            ArtifactKind::Design => "design"@,
            ArtifactKind::Adr => "adr"@,
            ArtifactKind::Task => "task"@,
        }
    }

    /// The name of the kind as the Rust debug format writes it.
    pub open spec fn debug_text(self) -> Seq<char> {
        match self {
            ArtifactKind::Prd => "Prd"@,
            ArtifactKind::Epic => "Epic"@,
            ArtifactKind::UserStory => "UserStory"@,
            ArtifactKind::Gherkin => "Gherkin"@,
            ArtifactKind::Requirements => "Requirements"@,
            ArtifactKind::Design => "Design"@,
            ArtifactKind::Adr => "Adr"@,
            ArtifactKind::Task => "Task"@,
        }
    }

    /// The required frontmatter type value, when the artifact has one.
    pub open spec fn expected_type_text(self) -> Option<Seq<char>> {
        match self {
            ArtifactKind::Prd => Some("product-requirements"@),
            ArtifactKind::Epic => Some("epic-brief"@),
            ArtifactKind::UserStory => Some("user-story"@),
            ArtifactKind::Gherkin => None,
            ArtifactKind::Requirements => Some("feature-requirements"@),
            ArtifactKind::Design => Some("feature-design"@),
            ArtifactKind::Adr => Some("architecture-decision-record"@),
            ArtifactKind::Task => Some("implementation-tasks"@),
        }
    }

    /// The identifier prefix required by this kind.
    pub open spec fn prefix_text(self) -> Option<Seq<char>> {
        match self {
            ArtifactKind::Prd => Some("PRD"@),
            ArtifactKind::Epic => Some("EPIC"@),
            ArtifactKind::UserStory => Some("US"@),
            ArtifactKind::Gherkin => None,
            ArtifactKind::Requirements => Some("REQ"@),
            ArtifactKind::Design => Some("DES"@),
            ArtifactKind::Adr => Some("ADR"@),
            ArtifactKind::Task => Some("TASK"@),
        }
    }

    /// Returns the position of this kind in the report order.
    pub fn order_index(self) -> (res: usize)
        ensures
            res == self.rank(),
    {
        match self {
            ArtifactKind::Prd => 0,
            ArtifactKind::Epic => 1,
            ArtifactKind::UserStory => 2,
            ArtifactKind::Gherkin => 3,
            ArtifactKind::Requirements => 4,
            ArtifactKind::Design => 5,
            ArtifactKind::Adr => 6,
            ArtifactKind::Task => 7,
        }
    }

    /// Returns the stable lower-case type token.
    pub fn token(self) -> (res: &'static str)
        ensures
            res@ == self.token_text(),
    {
        match self {
            ArtifactKind::Prd => "prd",
            ArtifactKind::Epic => "epic",
            ArtifactKind::UserStory => "user-story",
            ArtifactKind::Gherkin => "gherkin",
            ArtifactKind::Requirements => "requirements",
            ArtifactKind::Design => "design",
            ArtifactKind::Adr => "adr",
            ArtifactKind::Task => "task",
        }
    }

    /// Returns the name of the kind as the Rust debug format writes it.
    pub fn debug_name(self) -> (res: &'static str)
        ensures
            res@ == self.debug_text(),
    {
        match self {
            ArtifactKind::Prd => "Prd",
            ArtifactKind::Epic => "Epic",
            ArtifactKind::UserStory => "UserStory",
            ArtifactKind::Gherkin => "Gherkin",
            ArtifactKind::Requirements => "Requirements",
            ArtifactKind::Design => "Design",
            ArtifactKind::Adr => "Adr",
            ArtifactKind::Task => "Task",
        }
    }

    /// Returns the required frontmatter type value, when the artifact has one.
    pub fn expected_type(self) -> (res: Option<&'static str>)
        ensures
            res is Some <==> self.expected_type_text() is Some,
            res is Some ==> res->0@ == self.expected_type_text()->0,
    {
        match self {
            ArtifactKind::Prd => Some("product-requirements"),
            ArtifactKind::Epic => Some("epic-brief"),
            ArtifactKind::UserStory => Some("user-story"),
            ArtifactKind::Gherkin => None,
            ArtifactKind::Requirements => Some("feature-requirements"),
            ArtifactKind::Design => Some("feature-design"),
            ArtifactKind::Adr => Some("architecture-decision-record"),
            ArtifactKind::Task => Some("implementation-tasks"),
        }
    }

    /// Returns the identifier prefix required by this artifact kind.
    pub fn id_prefix(self) -> (res: Option<&'static str>)
        ensures
            res is Some <==> self.prefix_text() is Some,
            res is Some ==> res->0@ == self.prefix_text()->0,
    {
        match self {
            ArtifactKind::Prd => Some("PRD"),
            ArtifactKind::Epic => Some("EPIC"),
            ArtifactKind::UserStory => Some("US"),
            ArtifactKind::Gherkin => None,
            ArtifactKind::Requirements => Some("REQ"),
            ArtifactKind::Design => Some("DES"),
            ArtifactKind::Adr => Some("ADR"),
            ArtifactKind::Task => Some("TASK"),
        }
    }

    /// Identifies the artifact kind from a canonical repository-relative path.
    pub fn from_path(path: &str) -> (res: Option<ArtifactKind>)
        ensures
            res == kind_from_path(path@),
    {
        let chars = chars_of(path);
        let segments = chars_split(chars.as_slice(), '/');
        proof {
            assert(segments@.len() == split(path@, '/').len());
        }
        let n = segments.len();
        if n != 3 && n != 4 {
            return None;
        }
        proof {
            assert(segments@[0]@ == split(path@, '/')[0]);
            assert(segments@[1]@ == split(path@, '/')[1]);
            assert(segments@[2]@ == split(path@, '/')[2]);
        }
        let specs = chars_of("specs");
        if !chars_eq(segments[0].as_slice(), specs.as_slice()) {
            return None;
        }
        let archive = chars_of("archive");
        let adr = chars_of("adr");
        let prds = chars_of("prds");
        let second = segments[1].as_slice();
        if n == 3 {
            let packet = packet_kind_of(segments[2].as_slice());
            if packet.is_some() {
                return packet;
            }
            if chars_eq(second, adr.as_slice()) && numbered_file_of(
                segments[2].as_slice(),
                "ADR",
            ) {
                return Some(ArtifactKind::Adr);
            }
            if chars_eq(second, prds.as_slice()) && numbered_file_of(
                segments[2].as_slice(),
                "PRD",
            ) {
                return Some(ArtifactKind::Prd);
            }
            return None;
        }
        proof {
            assert(segments@[3]@ == split(path@, '/')[3]);
        }
        if chars_eq(second, archive.as_slice()) && archive_directory_of(segments[2].as_slice()) {
            return packet_kind_of(segments[3].as_slice());
        }
        if chars_eq(second, prds.as_slice()) && numbered_directory_of(segments[2].as_slice())
            && numbered_file_of(segments[3].as_slice(), "EPIC") {
            return Some(ArtifactKind::Epic);
        }
        None
    }
}

/// The kind of a file inside a feature packet directory.
pub open spec fn packet_kind(file: Seq<char>) -> Option<ArtifactKind> {
    if file == "user-story.md"@ {
        Some(ArtifactKind::UserStory)
    } else if file == "scenarios.feature"@ {
        Some(ArtifactKind::Gherkin)
    } else if file == "requirements.md"@ {
        Some(ArtifactKind::Requirements)
    } else if file == "design.md"@ {
        Some(ArtifactKind::Design)
    } else if file == "tasks.md"@ {
        Some(ArtifactKind::Task)
    } else {
        None
    }
}

/// `prefix`, a hyphen, three ASCII digits and `.md`.
pub open spec fn numbered_file(value: Seq<char>, prefix: Seq<char>) -> bool {
    match strip_suffix(value, ".md"@) {
        Some(stem) => is_numbered(stem, prefix),
        None => false,
    }
}

/// `PRD-`, three ASCII digits and `-epics`.
pub open spec fn numbered_directory(value: Seq<char>) -> bool {
    match strip_prefix(value, "PRD-"@) {
        Some(rest) => match strip_suffix(rest, "-epics"@) {
            Some(number) => three_digits(number),
            None => false,
        },
        None => false,
    }
}

/// Three ASCII digits, a hyphen and at least one more character.
pub open spec fn archive_directory(value: Seq<char>) -> bool {
    value.len() >= 5 && is_digit(value[0]) && is_digit(value[1]) && is_digit(value[2])
        && value[3] == '-'
}

/// The kind that a canonical repository-relative path encodes.
pub open spec fn kind_from_path(path: Seq<char>) -> Option<ArtifactKind> {
    let seg = split(path, '/');
    if seg.len() == 3 && seg[0] == "specs"@ && packet_kind(seg[2]) is Some {
        packet_kind(seg[2])
    } else if seg.len() == 4 && seg[0] == "specs"@ && seg[1] == "archive"@ && archive_directory(
        seg[2],
    ) {
        packet_kind(seg[3])
    } else if seg.len() == 3 && seg[0] == "specs"@ && seg[1] == "adr"@ && numbered_file(
        seg[2],
        "ADR"@,
    ) {
        Some(ArtifactKind::Adr)
    } else if seg.len() == 3 && seg[0] == "specs"@ && seg[1] == "prds"@ && numbered_file(
        seg[2],
        "PRD"@,
    ) {
        Some(ArtifactKind::Prd)
    } else if seg.len() == 4 && seg[0] == "specs"@ && seg[1] == "prds"@ && numbered_directory(
        seg[2],
    ) && numbered_file(seg[3], "EPIC"@) {
        Some(ArtifactKind::Epic)
    } else {
        None
    }
}

fn text_is(value: &[char], literal: &str) -> (res: bool)
    ensures
        res == (value@ == literal@),
{
    let l = chars_of(literal);
    chars_eq(value, l.as_slice())
}

fn packet_kind_of(file: &[char]) -> (res: Option<ArtifactKind>)
    ensures
        res == packet_kind(file@),
{
    if text_is(file, "user-story.md") {
        Some(ArtifactKind::UserStory)
    } else if text_is(file, "scenarios.feature") {
        Some(ArtifactKind::Gherkin)
    } else if text_is(file, "requirements.md") {
        Some(ArtifactKind::Requirements)
    } else if text_is(file, "design.md") {
        Some(ArtifactKind::Design)
    } else if text_is(file, "tasks.md") {
        Some(ArtifactKind::Task)
    } else {
        None
    }
}

fn numbered_file_of(value: &[char], prefix: &str) -> (res: bool)
    ensures
        res == numbered_file(value@, prefix@),
{
    let md = chars_of(".md");
    match chars_strip_suffix(value, md.as_slice()) {
        Some(stem) => {
            let p = chars_of(prefix);
            chars_numbered(stem.as_slice(), p.as_slice())
        },
        None => false,
    }
}

fn numbered_directory_of(value: &[char]) -> (res: bool)
    ensures
        res == numbered_directory(value@),
{
    let prefix = chars_of("PRD-");
    let suffix = chars_of("-epics");
    match chars_strip_prefix(value, prefix.as_slice()) {
        Some(rest) => match chars_strip_suffix(rest.as_slice(), suffix.as_slice()) {
            Some(number) => chars_three_digits(number.as_slice()),
            None => false,
        },
        None => false,
    }
}

fn archive_directory_of(value: &[char]) -> (res: bool)
    ensures
        res == archive_directory(value@),
{
    value.len() >= 5 && char_is_digit(value[0]) && char_is_digit(value[1]) && char_is_digit(
        value[2],
    ) && value[3] == '-'
}

/// A path segment that names something: not empty, `.` or `..`.
pub open spec fn proper_segment(part: Seq<char>) -> bool {
    part.len() > 0 && part != seq!['.'] && part != seq!['.', '.']
}

/// A repository-relative path: not empty, not absolute, without backslashes
/// and made of proper segments.
pub open spec fn valid_path(value: Seq<char>) -> bool {
    &&& value.len() > 0
    &&& !starts_with(value, seq!['/'])
    &&& !value.contains('\\')
    &&& forall|i: int|
        0 <= i < split(value, '/').len() ==> proper_segment(#[trigger] split(value, '/')[i])
}

/// Identifies a repository-relative artifact path.
#[derive(Debug, PartialEq, Eq, Hash, PartialOrd, Ord)]
pub struct ArtifactPath(String);

impl View for ArtifactPath {
    type V = Seq<char>;

    closed spec fn view(&self) -> Seq<char> {
        self.0@
    }
}

impl ArtifactPath {
    /// Paths hold repository-relative text.
    #[verifier::type_invariant]
    closed spec fn inv(self) -> bool {
        valid_path(self.0@)
    }

    /// Creates a validated repository-relative path.
    pub fn try_new(value: &str) -> (res: Result<ArtifactPath, PathError>)
        ensures
            match res {
                Ok(p) => valid_path(value@) && p@ == value@,
                Err(PathError::Empty) => value@.len() == 0,
                Err(PathError::NotRepositoryRelative) => value@.len() > 0 && !valid_path(value@),
            },
    {
        let chars = chars_of(value);
        if chars.len() == 0 {
            return Err(PathError::Empty);
        }
        let slash = vec!['/'];
        proof {
            assert(slash@ =~= seq!['/']);
        }
        if chars_start_with(chars.as_slice(), slash.as_slice()) || chars_have(
            chars.as_slice(),
            '\\',
        ) {
            return Err(PathError::NotRepositoryRelative);
        }
        let parts = chars_split(chars.as_slice(), '/');
        let dot = vec!['.'];
        let dots = vec!['.', '.'];
        proof {
            assert(dot@ =~= seq!['.']);
            assert(dots@ =~= seq!['.', '.']);
        }
        let mut i: usize = 0;
        while i < parts.len()
            invariant
                i <= parts@.len(),
                parts@.map_values(|p: Vec<char>| p@) == split(value@, '/'),
                dot@ == seq!['.'],
                dots@ == seq!['.', '.'],
                forall|k: int| 0 <= k < i ==> proper_segment(#[trigger] split(value@, '/')[k]),
                value@.len() > 0,
                !starts_with(value@, seq!['/']),
                !value@.contains('\\'),
            decreases parts@.len() - i,
        {
            let part = parts[i].as_slice();
            proof {
                assert(part@ == split(value@, '/')[i as int]);
            }
            if part.len() == 0 || chars_eq(part, dot.as_slice()) || chars_eq(part, dots.as_slice()) {
                proof {
                    assert(!proper_segment(split(value@, '/')[i as int]));
                }
                return Err(PathError::NotRepositoryRelative);
            }
            i = i + 1;
        }
        Ok(ArtifactPath(owned(value)))
    }

    /// Returns the repository-relative slash-separated path.
    pub fn as_str(&self) -> (res: &str)
        ensures
            res@ == self@,
    {
        self.0.as_str()
    }
}

impl Clone for ArtifactPath {
    fn clone(&self) -> (res: Self)
        ensures
            res@ == self@,
    {
        proof {
            use_type_invariant(self);
        }
        ArtifactPath(self.0.clone())
    }
}

impl Duplicate for ArtifactPath {
    fn duplicate(&self) -> (res: Self) {
        self.clone()
    }
}

/// Explains why an artifact path could not be represented.
#[derive(Clone, Copy, Debug, PartialEq, Eq, Structural)]
pub enum PathError {
    /// The supplied path had no components.
    Empty,
    /// The supplied path was not repository-relative.
    NotRepositoryRelative,
}

impl PathError {
    /// The text of the error message.
    pub open spec fn message_text(self) -> Seq<char> {
        match self {
            PathError::Empty => "artifact path is empty"@,
            PathError::NotRepositoryRelative => "artifact path is not repository-relative"@,
        }
    }

    /// Returns the error message.
    pub fn message(&self) -> (res: String)
        ensures
            res@ == self.message_text(),
    {
        match self {
            PathError::Empty => owned("artifact path is empty"),
            PathError::NotRepositoryRelative => owned("artifact path is not repository-relative"),
        }
    }
}

/// The identifier that `value` denotes for `kind`, when it has the required
/// prefix and three digits.
pub open spec fn id_for(kind: ArtifactKind, value: Seq<char>) -> Option<Seq<char>> {
    match kind.prefix_text() {
        Some(p) => if is_numbered(value, p) {
            Some(value)
        } else {
            None
        },
        None => None,
    }
}

/// Text that some kind accepts as its identifier.
pub open spec fn is_identifier(value: Seq<char>) -> bool {
    exists|k: ArtifactKind| #[trigger] id_for(k, value) is Some
}

/// Identifies a valid numbered artifact.
#[derive(Debug, PartialEq, Eq, Hash, PartialOrd, Ord)]
pub struct ArtifactId(String);

impl View for ArtifactId {
    type V = Seq<char>;

    closed spec fn view(&self) -> Seq<char> {
        self.0@
    }
}

impl Clone for ArtifactId {
    fn clone(&self) -> (res: Self)
        ensures
            res@ == self@,
    {
        proof {
            use_type_invariant(self);
        }
        ArtifactId(self.0.clone())
    }
}

impl Duplicate for ArtifactId {
    fn duplicate(&self) -> (res: Self) {
        self.clone()
    }
}

impl ArtifactId {
    /// Identifiers hold the numbered form of some kind.
    #[verifier::type_invariant]
    closed spec fn inv(self) -> bool {
        is_identifier(self.0@)
    }

    /// Creates an identifier with the prefix required by its artifact kind.
    pub fn try_new(kind: ArtifactKind, value: &str) -> (res: Result<ArtifactId, IdentifierError>)
        ensures
            match res {
                Ok(id) => id_for(kind, value@) == Some(id@),
                Err(IdentifierError::UnsupportedKind) => kind.prefix_text() is None,
                Err(IdentifierError::Invalid { expected_prefix }) => kind.prefix_text() == Some(
                    expected_prefix@,
                ) && id_for(kind, value@) is None,
            },
    {
        match kind.id_prefix() {
            None => Err(IdentifierError::UnsupportedKind),
            Some(prefix) => {
                if text_numbered(value, prefix) {
                    proof {
                        assert(id_for(kind, value@) is Some);
                    }
                    Ok(ArtifactId(owned(value)))
                } else {
                    Err(IdentifierError::Invalid { expected_prefix: prefix })
                }
            },
        }
    }

    /// Returns the identifier text.
    pub fn as_str(&self) -> (res: &str)
        ensures
            res@ == self@,
    {
        self.0.as_str()
    }
}

/// Explains why an artifact identifier was rejected.
#[derive(Clone, Debug, PartialEq, Eq)]
pub enum IdentifierError {
    /// The artifact kind has no identifier.
    UnsupportedKind,
    /// The identifier had the wrong prefix or numeric width.
    Invalid {
        /// The expected identifier prefix.
        expected_prefix: &'static str,
    },
}

impl IdentifierError {
    /// The text of the error message.
    pub open spec fn message_text(self) -> Seq<char> {
        match self {
            IdentifierError::UnsupportedKind => "artifact kind does not use an identifier"@,
            IdentifierError::Invalid { expected_prefix } => "identifier must use "@
                + expected_prefix@ + "-NNN"@,
        }
    }

    /// Returns the error message.
    pub fn message(&self) -> (res: String)
        ensures
            res@ == self.message_text(),
    {
        match self {
            IdentifierError::UnsupportedKind => owned("artifact kind does not use an identifier"),
            IdentifierError::Invalid { expected_prefix } => {
                let head = concat("identifier must use ", expected_prefix);
                concat(head.as_str(), "-NNN")
            },
        }
    }
}

/// The content of a metadata value.
pub enum MValue {
    Scalar(Seq<char>),
    Sequence(Seq<Seq<char>>),
    Null,
    Mapping,
}

/// A normalized frontmatter field value.
#[derive(Clone, Debug, PartialEq, Eq)]
pub enum MetadataValue {
    /// A scalar YAML value represented as text.
    Scalar(String),
    /// A YAML sequence of scalar values represented as text.
    Sequence(Vec<String>),
    /// A YAML null value.
    Null,
    /// A YAML mapping or unsupported nested value.
    Mapping,
}

impl View for MetadataValue {
    type V = MValue;

    open spec fn view(&self) -> MValue {
        match self {
            MetadataValue::Scalar(s) => MValue::Scalar(s@),
            MetadataValue::Sequence(v) => MValue::Sequence(view_seq(v@)),
            MetadataValue::Null => MValue::Null,
            MetadataValue::Mapping => MValue::Mapping,
        }
    }
}

impl Duplicate for MetadataValue {
    fn duplicate(&self) -> (res: Self) {
        match self {
            MetadataValue::Scalar(s) => MetadataValue::Scalar(s.duplicate()),
            MetadataValue::Sequence(v) => MetadataValue::Sequence(copy_all(v.as_slice())),
            MetadataValue::Null => MetadataValue::Null,
            MetadataValue::Mapping => MetadataValue::Mapping,
        }
    }
}

impl MetadataValue {
    /// Creates a scalar metadata value.
    pub fn scalar(value: &str) -> (res: Self)
        ensures
            res@ == MValue::Scalar(value@),
    {
        MetadataValue::Scalar(owned(value))
    }

    /// Creates a sequence metadata value.
    pub fn sequence(values: &[&str]) -> (res: Self)
        ensures
            res@ == MValue::Sequence(str_views(values@)),
    {
        let mut out: Vec<String> = Vec::new();
        let mut i: usize = 0;
        while i < values.len()
            invariant
                i <= values@.len(),
                view_seq(out@) == str_views(values@.take(i as int)),
            decreases values@.len() - i,
        {
            let text = owned(values[i]);
            proof {
                crate::copy::lemma_view_seq_push(out@, text);
                assert(values@.take(i + 1) =~= values@.take(i as int).push(values@[i as int]));
                assert(str_views(values@.take(i + 1)) =~= str_views(values@.take(i as int)).push(
                    values@[i as int]@,
                ));
            }
            out.push(text);
            i = i + 1;
        }
        assert(values@.take(i as int) =~= values@);
        MetadataValue::Sequence(out)
    }
}

/// A metadata entry: field name and value.
pub type Entry = (Seq<char>, MValue);

/// The value of the first entry named `name`.
pub open spec fn meta_get(m: Seq<Entry>, name: Seq<char>) -> Option<MValue>
    decreases m.len(),
{
    if m.len() == 0 {
        None
    } else if m[0].0 == name {
        Some(m[0].1)
    } else {
        meta_get(m.drop_first(), name)
    }
}

/// Entries after setting `name` to `value`: an existing entry is replaced,
/// otherwise the entry goes before the first greater name.
pub open spec fn meta_insert(m: Seq<Entry>, name: Seq<char>, value: MValue) -> Seq<Entry>
    decreases m.len(),
{
    if m.len() == 0 {
        seq![(name, value)]
    } else if m[0].0 == name {
        seq![(name, value)] + m.drop_first()
    } else if lex_lt(name, m[0].0) {
        seq![(name, value)] + m
    } else {
        seq![m[0]] + meta_insert(m.drop_first(), name, value)
    }
}

/// Entry names strictly increase.
pub open spec fn names_sorted(m: Seq<Entry>) -> bool {
    forall|i: int, j: int| 0 <= i < j < m.len() ==> lex_lt(#[trigger] m[i].0, #[trigger] m[j].0)
}

/// The content of metadata entries.
pub open spec fn entry_views(v: Seq<(String, MetadataValue)>) -> Seq<Entry> {
    v.map_values(|e: (String, MetadataValue)| (e.0@, e.1@))
}

/// Normalized frontmatter fields without a serialization dependency.
#[derive(Debug, PartialEq, Eq)]
pub struct Metadata {
    fields: Vec<(String, MetadataValue)>,
}

impl View for Metadata {
    type V = Seq<Entry>;

    closed spec fn view(&self) -> Seq<Entry> {
        entry_views(self.fields@)
    }
}

impl Duplicate for Metadata {
    fn duplicate(&self) -> (res: Self) {
        let mut fields: Vec<(String, MetadataValue)> = Vec::new();
        let mut i: usize = 0;
        while i < self.fields.len()
            invariant
                i <= self.fields@.len(),
                entry_views(fields@) == entry_views(self.fields@.take(i as int)),
            decreases self.fields@.len() - i,
        {
            let entry = &self.fields[i];
            let copy = (entry.0.duplicate(), entry.1.duplicate());
            proof {
                assert(entry_views(fields@.push(copy)) =~= entry_views(fields@).push(
                    (copy.0@, copy.1@),
                ));
                assert(self.fields@.take(i + 1) =~= self.fields@.take(i as int).push(
                    self.fields@[i as int],
                ));
                assert(entry_views(self.fields@.take(i + 1)) =~= entry_views(
                    self.fields@.take(i as int),
                ).push((self.fields@[i as int].0@, self.fields@[i as int].1@)));
            }
            fields.push(copy);
            i = i + 1;
        }
        assert(self.fields@.take(i as int) =~= self.fields@);
        proof {
            use_type_invariant(self);
        }
        Metadata { fields }
    }
}

impl Clone for Metadata {
    /// A copy with the same entries.
    fn clone(&self) -> (res: Self)
        ensures
            res@ == self@,
    {
        self.duplicate()
    }
}

impl Default for Metadata {
    /// Empty metadata, as `Metadata::new` gives.
    fn default() -> (res: Self)
        ensures
            res@ == Seq::<Entry>::empty(),
    {
        Metadata::new()
    }
}

/// Getting a name after setting it gives the value set.
pub proof fn lemma_get_after_insert(m: Seq<Entry>, name: Seq<char>, value: MValue)
    ensures
        meta_get(meta_insert(m, name, value), name) == Some(value),
    decreases m.len(),
{
    if m.len() > 0 && m[0].0 != name && !lex_lt(name, m[0].0) {
        lemma_get_after_insert(m.drop_first(), name, value);
        assert((seq![m[0]] + meta_insert(m.drop_first(), name, value)).drop_first()
            =~= meta_insert(m.drop_first(), name, value));
    }
}

/// Setting a name leaves every other name unchanged.
pub proof fn lemma_get_other_after_insert(
    m: Seq<Entry>,
    name: Seq<char>,
    value: MValue,
    other: Seq<char>,
)
    requires
        other != name,
    ensures
        meta_get(meta_insert(m, name, value), other) == meta_get(m, other),
    decreases m.len(),
{
    if m.len() == 0 {
        assert(seq![(name, value)].drop_first() =~= Seq::<Entry>::empty());
        assert(meta_get(Seq::<Entry>::empty(), other) is None);
    } else {
        if m[0].0 == name {
            assert((seq![(name, value)] + m.drop_first()).drop_first() =~= m.drop_first());
            assert((seq![(name, value)] + m.drop_first())[0] == (name, value));
        } else if lex_lt(name, m[0].0) {
            assert((seq![(name, value)] + m).drop_first() =~= m);
            assert((seq![(name, value)] + m)[0] == (name, value));
        } else {
            assert((seq![m[0]] + meta_insert(m.drop_first(), name, value))[0] == m[0]);
            lemma_get_other_after_insert(m.drop_first(), name, value, other);
            assert((seq![m[0]] + meta_insert(m.drop_first(), name, value)).drop_first()
                =~= meta_insert(m.drop_first(), name, value));
        }
    }
}

/// Setting a name keeps the names in increasing order.
pub proof fn lemma_insert_keeps_sorted(m: Seq<Entry>, name: Seq<char>, value: MValue)
    requires
        names_sorted(m),
    ensures
        names_sorted(meta_insert(m, name, value)),
        meta_insert(m, name, value).len() > 0,
        forall|i: int|
            0 <= i < meta_insert(m, name, value).len() ==> (#[trigger] meta_insert(
                m,
                name,
                value,
            )[i].0 == name || m.contains(meta_insert(m, name, value)[i])),
    decreases m.len(),
{
    let r = meta_insert(m, name, value);
    if m.len() == 0 {
    } else if m[0].0 == name {
        assert forall|i: int, j: int| 0 <= i < j < r.len() implies lex_lt(
            #[trigger] r[i].0,
            #[trigger] r[j].0,
        ) by {
            assert(r[j] == m[j]);
            if i > 0 {
                assert(r[i] == m[i]);
            }
        }
        assert forall|i: int| 0 <= i < r.len() implies (#[trigger] r[i].0 == name || m.contains(
            r[i],
        )) by {
            if i > 0 {
                assert(r[i] == m[i]);
            }
        }
    } else if lex_lt(name, m[0].0) {
        assert forall|i: int, j: int| 0 <= i < j < r.len() implies lex_lt(
            #[trigger] r[i].0,
            #[trigger] r[j].0,
        ) by {
            assert(r[j] == m[j - 1]);
            if i > 0 {
                assert(r[i] == m[i - 1]);
            } else if j > 1 {
                crate::diagnostic::lemma_lex_lt_facts(name, m[0].0, m[j - 1].0);
            }
        }
        assert forall|i: int| 0 <= i < r.len() implies (#[trigger] r[i].0 == name || m.contains(
            r[i],
        )) by {
            if i > 0 {
                assert(r[i] == m[i - 1]);
            }
        }
    } else {
        let t = m.drop_first();
        assert(names_sorted(t)) by {
            assert forall|i: int, j: int| 0 <= i < j < t.len() implies lex_lt(
                #[trigger] t[i].0,
                #[trigger] t[j].0,
            ) by {
                assert(t[i] == m[i + 1] && t[j] == m[j + 1]);
            }
        }
        lemma_insert_keeps_sorted(t, name, value);
        let rt = meta_insert(t, name, value);
        assert(r == seq![m[0]] + rt);
        crate::text::lemma_lex_total(name, m[0].0);
        assert forall|k: int| 0 <= k < rt.len() implies lex_lt(m[0].0, #[trigger] rt[k].0) by {
            if rt[k].0 == name {
                crate::diagnostic::lemma_lex_lt_facts(name, m[0].0, name);
            } else {
                let q = choose|q: int| 0 <= q < t.len() && t[q] == rt[k];
                assert(t[q] == m[q + 1]);
            }
        }
        assert forall|i: int, j: int| 0 <= i < j < r.len() implies lex_lt(
            #[trigger] r[i].0,
            #[trigger] r[j].0,
        ) by {
            assert(r[j] == rt[j - 1]);
            if i > 0 {
                assert(r[i] == rt[i - 1]);
            }
        }
        assert forall|i: int| 0 <= i < r.len() implies (#[trigger] r[i].0 == name || m.contains(
            r[i],
        )) by {
            if i > 0 {
                assert(r[i] == rt[i - 1]);
                if rt[i - 1].0 != name {
                    let q = choose|q: int| 0 <= q < t.len() && t[q] == rt[i - 1];
                    assert(m[q + 1] == t[q]);
                }
            }
        }
    }
}

/// A name that no entry has is absent.
proof fn lemma_get_absent(m: Seq<Entry>, name: Seq<char>)
    requires
        forall|i: int| 0 <= i < m.len() ==> #[trigger] m[i].0 != name,
    ensures
        meta_get(m, name) is None,
    decreases m.len(),
{
    if m.len() > 0 {
        assert forall|i: int| 0 <= i < m.drop_first().len() implies #[trigger] m.drop_first()[i].0
            != name by {
            assert(m.drop_first()[i] == m[i + 1]);
        }
        lemma_get_absent(m.drop_first(), name);
    }
}

/// Setting a name in entries in name order replaces the entry of that name
/// where there is one, and otherwise adds exactly one entry.
pub proof fn lemma_insert_entry_count(m: Seq<Entry>, name: Seq<char>, value: MValue)
    requires
        names_sorted(m),
    ensures
        meta_insert(m, name, value).len() == m.len() + if meta_get(m, name) is None {
            1int
        } else {
            0int
        },
    decreases m.len(),
{
    if m.len() == 0 {
    } else if m[0].0 == name {
    } else if lex_lt(name, m[0].0) {
        assert forall|i: int| 0 <= i < m.len() implies #[trigger] m[i].0 != name by {
            crate::diagnostic::lemma_lex_lt_facts(name, m[0].0, m[i].0);
            crate::diagnostic::lemma_lex_lt_facts(m[i].0, m[i].0, m[i].0);
        }
        lemma_get_absent(m, name);
    } else {
        let t = m.drop_first();
        assert(names_sorted(t)) by {
            assert forall|i: int, j: int| 0 <= i < j < t.len() implies lex_lt(
                #[trigger] t[i].0,
                #[trigger] t[j].0,
            ) by {
                assert(t[i] == m[i + 1] && t[j] == m[j + 1]);
            }
        }
        lemma_insert_entry_count(t, name, value);
    }
}

impl Metadata {
    /// Metadata entries are kept in strictly increasing name order.
    #[verifier::type_invariant]
    spec fn names_in_order(self) -> bool {
        names_sorted(entry_views(self.fields@))
    }

    /// Creates empty metadata.
    pub fn new() -> (res: Self)
        ensures
            res@ == Seq::<Entry>::empty(),
    {
        Metadata { fields: Vec::new() }
    }

    /// Inserts a normalized metadata value: an entry under the same name is
    /// replaced, otherwise the entry count grows by one.
    pub fn insert(&mut self, name: &str, value: MetadataValue)
        ensures
            final(self)@ == meta_insert(old(self)@, name@, value@),
            final(self)@.len() == old(self)@.len() + if meta_get(old(self)@, name@) is None {
                1int
            } else {
                0int
            },
    {
        proof {
            use_type_invariant(&*self);
            lemma_insert_entry_count(self@, name@, value@);
        }
        let mut fields: Vec<(String, MetadataValue)> = Vec::new();
        std::mem::swap(&mut fields, &mut self.fields);
        Self::insert_into(&mut fields, name, value);
        self.fields = fields;
    }

    fn insert_into(fields: &mut Vec<(String, MetadataValue)>, name: &str, value: MetadataValue)
        requires
            names_sorted(entry_views(old(fields)@)),
        ensures
            entry_views(final(fields)@) == meta_insert(entry_views(old(fields)@), name@, value@),
            names_sorted(entry_views(final(fields)@)),
    {
        let key = chars_of(name);
        let mut i: usize = 0;
        let ghost m = entry_views(fields@);
        proof {
            assert(m.skip(0) =~= m);
            assert(m.take(0) + meta_insert(m, name@, value@) =~= meta_insert(m, name@, value@));
        }
        while i < fields.len()
            invariant
                i <= fields@.len(),
                m == entry_views(fields@),
                names_sorted(m),
                m == entry_views(fields@),
                key@ == name@,
                meta_insert(m, name@, value@) == m.take(i as int) + meta_insert(
                    m.skip(i as int),
                    name@,
                    value@,
                ),
            ensures
                i <= m.len(),
                i < m.len() ==> (m[i as int].0 == name@ || lex_lt(name@, m[i as int].0)),
                meta_insert(m, name@, value@) == m.take(i as int) + meta_insert(
                    m.skip(i as int),
                    name@,
                    value@,
                ),
            decreases fields@.len() - i,
        {
            let here = chars_of(fields[i].0.as_str());
            proof {
                assert(here@ == m[i as int].0);
                assert(m.skip(i as int)[0] == m[i as int]);
            }
            if chars_eq(here.as_slice(), key.as_slice()) || chars_lt(
                key.as_slice(),
                here.as_slice(),
            ) {
                break;
            }
            proof {
                assert(m.skip(i as int).drop_first() =~= m.skip(i + 1));
                assert(m.take(i + 1) =~= m.take(i as int).push(m[i as int]));
                assert(meta_insert(m.skip(i as int), name@, value@) == seq![m[i as int]]
                    + meta_insert(m.skip(i + 1), name@, value@));
                assert(m.take(i as int) + (seq![m[i as int]] + meta_insert(
                    m.skip(i + 1),
                    name@,
                    value@,
                )) =~= m.take(i + 1) + meta_insert(m.skip(i + 1), name@, value@));
            }
            i = i + 1;
        }
        let found = if i < fields.len() {
            let here = chars_of(fields[i].0.as_str());
            proof {
                assert(here@ == m[i as int].0);
            }
            chars_eq(here.as_slice(), key.as_slice())
        } else {
            false
        };
        proof {
            if i < m.len() {
                assert(m.skip(i as int)[0] == m[i as int]);
            }
        }
        proof {
            lemma_insert_keeps_sorted(m, name@, value@);
        }
        let ghost vv = value@;
        if found {
            fields.set(i, (owned(name), value));
            proof {
                assert(m.skip(i as int).drop_first() =~= m.skip(i + 1));
                assert(entry_views(fields@) =~= m.take(i as int) + (seq![(name@, vv)]
                    + m.skip(i as int).drop_first()));
            }
        } else {
            fields.insert(i, (owned(name), value));
            proof {
                if i < m.len() {
                    assert(entry_views(fields@) =~= m.take(i as int) + (seq![(name@, vv)]
                        + m.skip(i as int)));
                } else {
                    assert(m.skip(i as int) =~= Seq::<Entry>::empty());
                    assert(entry_views(fields@) =~= m.take(i as int) + seq![(name@, vv)]);
                }
            }
        }
    }

    /// Inserts a scalar field.
    pub fn insert_scalar(&mut self, name: &str, value: &str)
        ensures
            final(self)@ == meta_insert(old(self)@, name@, MValue::Scalar(value@)),
    {
        self.insert(name, MetadataValue::scalar(value));
    }

    /// Inserts a sequence field.
    pub fn insert_sequence(&mut self, name: &str, values: &[&str])
        ensures
            final(self)@ == meta_insert(old(self)@, name@, MValue::Sequence(str_views(values@))),
    {
        self.insert(name, MetadataValue::sequence(values));
    }

    /// Returns a field by its YAML name.
    pub fn get(&self, name: &str) -> (res: Option<&MetadataValue>)
        ensures
            match res {
                Some(v) => meta_get(self@, name@) == Some(v@),
                None => meta_get(self@, name@) is None,
            },
    {
        let key = chars_of(name);
        let mut i: usize = 0;
        proof {
            assert(self@.skip(0) =~= self@);
        }
        while i < self.fields.len()
            invariant
                i <= self.fields@.len(),
                key@ == name@,
                meta_get(self@, name@) == meta_get(self@.skip(i as int), name@),
            decreases self.fields@.len() - i,
        {
            let here = chars_of(self.fields[i].0.as_str());
            proof {
                assert(self@.skip(i as int)[0] == self@[i as int]);
                assert(self@.skip(i as int).drop_first() =~= self@.skip(i + 1));
            }
            if chars_eq(here.as_slice(), key.as_slice()) {
                return Some(&self.fields[i].1);
            }
            i = i + 1;
        }
        None
    }

    /// Returns all fields in stable name order: each name once, names
    /// strictly ascending.
    pub fn iter(&self) -> (res: &[(String, MetadataValue)])
        ensures
            entry_views(res@) == self@,
            names_sorted(self@),
    {
        proof {
            use_type_invariant(self);
        }
        self.fields.as_slice()
    }
}

/// `lex_lt` on characters.
pub fn chars_lt(a: &[char], b: &[char]) -> (res: bool)
    ensures
        res == lex_lt(a@, b@),
{
    chars_le(a, b) && !chars_eq(a, b)
}

/// The content of an artifact snapshot.
pub struct SnapshotView {
    pub path: Seq<char>,
    pub kind: ArtifactKind,
    pub id: Option<Seq<char>>,
    pub metadata: Seq<Entry>,
    pub document: DocView,
    pub parser: Seq<DiagView>,
}

/// The identifier that a snapshot derives from its `id` field.
pub open spec fn snapshot_id(kind: ArtifactKind, metadata: Seq<Entry>) -> Option<Seq<char>> {
    match meta_get(metadata, "id"@) {
        Some(MValue::Scalar(v)) => id_for(kind, v),
        _ => None,
    }
}

/// The view of an optional identifier.
pub open spec fn opt_id_view(id: Option<ArtifactId>) -> Option<Seq<char>> {
    match id {
        Some(i) => Some(i@),
        None => None,
    }
}

/// A normalized artifact ready for pure validation.
#[derive(Debug, PartialEq, Eq)]
pub struct ArtifactSnapshot {
    path: ArtifactPath,
    kind: ArtifactKind,
    id: Option<ArtifactId>,
    metadata: Metadata,
    document: DocumentSnapshot,
    parser_diagnostics: Vec<Diagnostic>,
}

impl View for ArtifactSnapshot {
    type V = SnapshotView;

    closed spec fn view(&self) -> SnapshotView {
        SnapshotView {
            path: self.path@,
            kind: self.kind,
            id: opt_id_view(self.id),
            metadata: self.metadata@,
            document: self.document@,
            parser: view_seq(self.parser_diagnostics@),
        }
    }
}

/// A copy of an optional identifier.
pub fn copy_opt_id(id: &Option<ArtifactId>) -> (res: Option<ArtifactId>)
    ensures
        opt_id_view(res) == opt_id_view(*id),
{
    match id {
        Some(i) => Some(i.duplicate()),
        None => None,
    }
}

/// Copies of a sequence of diagnostics.
pub fn copy_diagnostics(v: &[Diagnostic]) -> (res: Vec<Diagnostic>)
    ensures
        view_seq(res@) == view_seq(v@),
{
    copy_all(v)
}

impl ArtifactSnapshot {
    /// The identifier is the one that the kind and the `id` field give.
    #[verifier::type_invariant]
    spec fn identified(self) -> bool {
        opt_id_view(self.id) == snapshot_id(self.kind, self.metadata@)
    }
}

impl Clone for ArtifactSnapshot {
    /// A copy with the same content.
    fn clone(&self) -> (res: Self)
        ensures
            res@ == self@,
    {
        self.duplicate()
    }
}

impl Duplicate for ArtifactSnapshot {
    fn duplicate(&self) -> (res: Self) {
        proof {
            use_type_invariant(self);
        }
        ArtifactSnapshot {
            path: self.path.duplicate(),
            kind: self.kind,
            id: copy_opt_id(&self.id),
            metadata: self.metadata.duplicate(),
            document: self.document.duplicate(),
            parser_diagnostics: copy_diagnostics(self.parser_diagnostics.as_slice()),
        }
    }
}

impl ArtifactSnapshot {
    /// Creates a normalized artifact snapshot.
    pub fn new(
        path: ArtifactPath,
        kind: ArtifactKind,
        metadata: Metadata,
        document: DocumentSnapshot,
    ) -> (res: Self)
        ensures
            res@ == (SnapshotView {
                path: path@,
                kind,
                id: snapshot_id(kind, metadata@),
                metadata: metadata@,
                document: document@,
                parser: Seq::empty(),
            }),
    {
        let id = match metadata.get("id") {
            Some(MetadataValue::Scalar(value)) => match ArtifactId::try_new(kind, value.as_str()) {
                Ok(id) => Some(id),
                Err(_) => None,
            },
            _ => None,
        };
        let res = ArtifactSnapshot {
            path,
            kind,
            id,
            metadata,
            document,
            parser_diagnostics: Vec::new(),
        };
        proof {
            assert(view_seq(res.parser_diagnostics@) =~= Seq::<DiagView>::empty());
        }
        res
    }

    /// Adds diagnostics produced while parsing the source document.
    pub fn with_parser_diagnostics(self, diagnostics: Vec<Diagnostic>) -> (res: Self)
        ensures
            res@ == (SnapshotView {
                path: self@.path,
                kind: self@.kind,
                id: self@.id,
                metadata: self@.metadata,
                document: self@.document,
                parser: self@.parser + view_seq(diagnostics@),
            }),
    {
        proof {
            use_type_invariant(&self);
        }
        let ArtifactSnapshot { path, kind, id, metadata, document, parser_diagnostics } = self;
        let mut all = parser_diagnostics;
        let mut added = diagnostics;
        let ghost a = view_seq(all@);
        let ghost b = view_seq(added@);
        all.append(&mut added);
        proof {
            assert(view_seq(all@) =~= a + b);
        }
        ArtifactSnapshot { path, kind, id, metadata, document, parser_diagnostics: all }
    }

    /// Returns the repository-relative path.
    pub fn path(&self) -> (res: &ArtifactPath)
        ensures
            res@ == self@.path,
    {
        &self.path
    }

    /// Returns the canonical artifact kind.
    pub fn kind(&self) -> (res: ArtifactKind)
        ensures
            res == self@.kind,
    {
        self.kind
    }

    /// Returns the recognized identifier, if valid: the one that the kind
    /// and the `id` field give.
    pub fn id(&self) -> (res: Option<&ArtifactId>)
        ensures
            res is Some <==> self@.id is Some,
            res is Some ==> res->0@ == self@.id->0,
            self@.id == snapshot_id(self@.kind, self@.metadata),
    {
        proof {
            use_type_invariant(self);
        }
        self.id.as_ref()
    }

    /// Returns normalized frontmatter.
    pub fn metadata(&self) -> (res: &Metadata)
        ensures
            res@ == self@.metadata,
    {
        &self.metadata
    }

    /// Returns normalized document structure.
    pub fn document(&self) -> (res: &DocumentSnapshot)
        ensures
            res@ == self@.document,
    {
        &self.document
    }

    /// Returns parser findings attached to this candidate.
    pub fn parser_diagnostics(&self) -> (res: &[Diagnostic])
        ensures
            view_seq(res@) == self@.parser,
    {
        self.parser_diagnostics.as_slice()
    }
}

} // verus!
