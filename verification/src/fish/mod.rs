//! Fish records, their validation, the catalog that holds them, and rarity.

pub mod chance;
pub mod library;
pub mod rarity;

pub use library::{BatchRejection, FishLibrary, LibraryError, LibraryIssue, LibraryStats, PartialLoad};
pub use rarity::{Rarity, RarityColor};

use std::path::Component;
use vstd::prelude::*;

use crate::text::{
    byte_len, char_is_alphanumeric, decimal, decimal_string, is_alphanumeric, is_ascii_alphanumeric, is_blank,
    str_is_blank,
};

verus! {

/// Longest fact accepted, in bytes.
pub const MAX_FACT_BYTES: usize = 500;

/// Longest name accepted, in characters.
pub const MAX_NAME_CHARS: usize = 100;

/// Longest species accepted, in characters.
pub const MAX_SPECIES_CHARS: usize = 200;

/// A single fish of the game library.
#[derive(Debug, PartialEq)]
pub struct Fish {
    /// Unique identifier (e.g., "clownfish_001").
    pub id: String,
    /// Display name (e.g., "Clownfish").
    pub name: String,
    /// Scientific or common species name (e.g., "Amphiprion ocellaris").
    pub species: String,
    /// Facts eligible to be shown when this fish is revealed.
    pub facts: Vec<String>,
    /// Path to the fish image, relative to the assets directory.
    pub image_path: String,
    /// Whether this fish exists in reality.
    pub is_real: bool,
    /// Whether the facts are truthful or fabricated.
    pub fact_is_real: bool,
}

/// The contents of a fish as plain sequences of characters.
pub struct FishView {
    pub id: Seq<char>,
    pub name: Seq<char>,
    pub species: Seq<char>,
    pub facts: Seq<Seq<char>>,
    pub image_path: Seq<char>,
    pub is_real: bool,
    pub fact_is_real: bool,
}

impl View for Fish {
    type V = FishView;

    open spec fn view(&self) -> FishView {
        FishView {
            id: self.id@,
            name: self.name@,
            species: self.species@,
            facts: self.facts@.map_values(|s: String| s@),
            image_path: self.image_path@,
            is_real: self.is_real,
            fact_is_real: self.fact_is_real,
        }
    }
}

impl Clone for Fish {
    fn clone(&self) -> (copy: Fish)
        ensures
            copy@ == self@,
    {
        let facts = self.facts.clone();
        proof {
            assert(facts@.map_values(|s: String| s@) =~= self.facts@.map_values(|s: String| s@));
        }
        Fish {
            id: self.id.clone(),
            name: self.name.clone(),
            species: self.species.clone(),
            facts,
            image_path: self.image_path.clone(),
            is_real: self.is_real,
            fact_is_real: self.fact_is_real,
        }
    }
}

/// Why a fish record is rejected.
#[derive(Debug)]
pub enum ValidationError {
    InvalidId(String),
    EmptyField(String),
    FieldTooLong { field: String, length: usize },
    EmptyFacts,
    EmptyFact(usize),
    FactTooLong { index: usize, length: usize },
    InvalidImagePath(String),
}

/// The contents of a `ValidationError`, with text as character sequences.
pub enum ValidationIssue {
    InvalidId(Seq<char>),
    EmptyField(Seq<char>),
    FieldTooLong { field: Seq<char>, length: int },
    EmptyFacts,
    EmptyFact(int),
    FactTooLong { index: int, length: int },
    InvalidImagePath(Seq<char>),
}

impl View for ValidationError {
    type V = ValidationIssue;

    open spec fn view(&self) -> ValidationIssue {
        match self {
            ValidationError::InvalidId(id) => ValidationIssue::InvalidId(id@),
            ValidationError::EmptyField(field) => ValidationIssue::EmptyField(field@),
            ValidationError::FieldTooLong { field, length } => ValidationIssue::FieldTooLong {
                field: field@,
                length: *length as int,
            },
            ValidationError::EmptyFacts => ValidationIssue::EmptyFacts,
            ValidationError::EmptyFact(index) => ValidationIssue::EmptyFact(*index as int),
            ValidationError::FactTooLong { index, length } => ValidationIssue::FactTooLong {
                index: *index as int,
                length: *length as int,
            },
            ValidationError::InvalidImagePath(path) => ValidationIssue::InvalidImagePath(path@),
        }
    }
}

/// A character allowed in an identifier: alphanumeric or underscore. For
/// ASCII characters that is a letter, a digit or `_`.
pub open spec fn is_id_char(c: char) -> bool {
    if (c as u32) < 128 {
        is_ascii_alphanumeric(c) || c == '_'
    } else {
        char_is_alphanumeric(c)
    }
}

/// An identifier is non-empty and made of alphanumerics and underscores.
pub open spec fn is_valid_id(id: Seq<char>) -> bool {
    &&& id.len() > 0
    &&& forall|i: int| 0 <= i < id.len() ==> is_id_char(#[trigger] id[i])
}

/// The first problem among the facts from index `i` on: a blank fact, or
/// one longer than 500 bytes.
pub open spec fn fact_issue_from(facts: Seq<Seq<char>>, i: int) -> Option<ValidationIssue>
    decreases facts.len() - i,
{
    if i < 0 || i >= facts.len() {
        None
    } else if is_blank(facts[i]) {
        Some(ValidationIssue::EmptyFact(i))
    } else if byte_len(facts[i]) > MAX_FACT_BYTES {
        Some(ValidationIssue::FactTooLong { index: i, length: byte_len(facts[i]) as int })
    } else {
        fact_issue_from(facts, i + 1)
    }
}

/// The first rule that a fish breaks, checked in this order: identifier,
/// name (not blank, at most 100 characters), species (not blank, at most
/// 200 characters), presence of facts, each fact, image path extension
/// (`has_extension` tells whether the image path has one). `None` when the
/// fish is valid.
pub open spec fn validation_issue(f: FishView, has_extension: bool) -> Option<ValidationIssue> {
    if !is_valid_id(f.id) {
        Some(ValidationIssue::InvalidId(f.id))
    } else if is_blank(f.name) {
        Some(ValidationIssue::EmptyField("name"@))
    } else if f.name.len() > MAX_NAME_CHARS {
        Some(ValidationIssue::FieldTooLong { field: "name"@, length: f.name.len() as int })
    } else if is_blank(f.species) {
        Some(ValidationIssue::EmptyField("species"@))
    } else if f.species.len() > MAX_SPECIES_CHARS {
        Some(ValidationIssue::FieldTooLong { field: "species"@, length: f.species.len() as int })
    } else if f.facts.len() == 0 {
        Some(ValidationIssue::EmptyFacts)
    } else if fact_issue_from(f.facts, 0) is Some {
        fact_issue_from(f.facts, 0)
    } else if !has_extension {
        Some(ValidationIssue::InvalidImagePath(f.image_path))
    } else {
        None
    }
}

/// A validation result agrees with the expected issue.
pub open spec fn validation_agrees(result: Result<(), ValidationError>, issue: Option<ValidationIssue>) -> bool {
    match result {
        Ok(()) => issue is None,
        Err(e) => issue == Some(e@),
    }
}

/// A path that has an extension under the path rules of every platform:
/// it starts with neither `/` nor a Windows prefix (no `\` and no `:`
/// anywhere), and its last `/`-separated segment is non-empty, does not
/// start with `.`, and contains a `.` (as in `fish/clownfish.png`).
pub open spec fn plainly_has_extension(path: Seq<char>) -> bool {
    &&& path.len() > 0
    &&& path[0] != '/'
    &&& !path.contains('\\')
    &&& !path.contains(':')
    &&& exists|k: int|
        #![trigger path[k]]
        0 <= k < path.len() && (k == 0 || path[k - 1] == '/') && path[k] != '.'
            && (forall|j: int| k <= j < path.len() ==> #[trigger] path[j] != '/')
            && (exists|j: int| k < j < path.len() && #[trigger] path[j] == '.')
}

/// A path that every platform splits into the same components, none of
/// them `.` or `..`: non-empty, neither starting nor ending with `/`,
/// holding no `\` and no `:`, and with no `/`-separated segment equal to
/// `.` or `..`. Its file name is its last `/`-separated segment.
pub open spec fn is_simple_path(path: Seq<char>) -> bool {
    &&& path.len() > 0
    &&& path[0] != '/'
    &&& path.last() != '/'
    &&& !path.contains('\\')
    &&& !path.contains(':')
    &&& !has_dot_segment(path)
}

/// Some `/`-separated segment of the path is `.` or `..`.
pub open spec fn has_dot_segment(path: Seq<char>) -> bool {
    exists|i: int|
        #![trigger path[i]]
        0 <= i < path.len() && path[i] == '.' && (i == 0 || path[i - 1] == '/') && (i + 1 == path.len()
            || path[i + 1] == '/' || (path[i + 1] == '.' && (i + 2 == path.len() || path[i + 2] == '/')))
}

/// The last `/`-separated segment of the path holds a `.` after its first
/// character.
pub open spec fn last_segment_has_inner_dot(path: Seq<char>) -> bool {
    exists|j: int|
        #![trigger path[j]]
        0 < j < path.len() && path[j] == '.' && path[j - 1] != '/' && (forall|m: int|
            j < m < path.len() ==> #[trigger] path[m] != '/')
}

/// What every platform's answer to "does this path have an extension?"
/// agrees on: a path without `.` has none, a plain `dir/name.ext` path has
/// one, and for a simple path the answer is whether its file name holds a
/// `.` after its first character (so `.png` and `fish/.hidden` have none).
pub open spec fn extension_answer_ok(path: Seq<char>, has_extension: bool) -> bool {
    &&& has_extension ==> path.contains('.')
    &&& plainly_has_extension(path) ==> has_extension
    &&& is_simple_path(path) ==> (has_extension <==> last_segment_has_inner_dot(path))
}

/// `std::path::Path::extension(..).is_some()` on the image path. What counts
/// as the file name and its extension depends on the platform's path rules,
/// so only what the documentation gives for every platform is stated: a path
/// without any `.` has no extension; a path whose file name is its last
/// `/`-separated segment (no `\`, no `:`, no leading `/`) has one when that
/// segment contains a `.` after its first character; and for a simple path
/// (no `\`, no `:`, no leading or trailing `/`, no `.` or `..` segment) the
/// extension exists exactly when the file name has a `.` after its first
/// character.
#[verifier::external_body]
fn path_has_extension(path: &str) -> (has_extension: bool)
    ensures
        extension_answer_ok(path@, has_extension),
{
    std::path::Path::new(path).extension().is_some()
}

/// A path that no platform reads as absolute: empty, or starting with
/// neither `/` nor `\` and holding no `:` (so it has no root and no
/// Windows prefix).
pub open spec fn surely_relative(path: Seq<char>) -> bool {
    path.len() == 0 || (path[0] != '/' && path[0] != '\\' && !path.contains(':'))
}

/// What every platform's answer to "is this path absolute?" agrees on.
pub open spec fn absolute_answer_ok(path: Seq<char>, absolute: bool) -> bool {
    surely_relative(path) ==> !absolute
}

/// The path holds two dots in a row somewhere.
pub open spec fn has_double_dot(path: Seq<char>) -> bool {
    exists|i: int| 0 <= i < path.len() - 1 && #[trigger] path[i] == '.' && path[i + 1] == '.'
}

/// The path is `..` or starts with the segment `../`.
pub open spec fn starts_with_parent(path: Seq<char>) -> bool {
    path == ".."@ || (path.len() >= 3 && path.subrange(0, 3) == "../"@)
}

/// Some `/`-separated segment of the path is exactly `..`.
pub open spec fn has_parent_segment(path: Seq<char>) -> bool {
    exists|i: int|
        #![trigger path[i]]
        0 <= i && i + 1 < path.len() && path[i] == '.' && path[i + 1] == '.' && (i == 0 || path[i - 1] == '/')
            && (i + 2 == path.len() || path[i + 2] == '/')
}

/// What every platform's answer to "does this path have a `..`
/// component?" agrees on: a path that is `..` or starts with `../` has one;
/// a path without two dots in a row has none; and a surely relative path
/// (no root, no prefix) has one whenever a `/`-separated segment is `..`,
/// and, when it also holds no `\`, only then.
pub open spec fn parent_answer_ok(path: Seq<char>, parent: bool) -> bool {
    &&& starts_with_parent(path) ==> parent
    &&& !has_double_dot(path) ==> !parent
    &&& surely_relative(path) && has_parent_segment(path) ==> parent
    &&& surely_relative(path) && !path.contains('\\') ==> (parent <==> has_parent_segment(path))
}

/// An answer to "does this image path stay inside the assets directory?":
/// it does exactly when the path is neither absolute nor has a `..`
/// component, for answers to those two questions that agree with every
/// platform.
pub open spec fn containment_answer_ok(path: Seq<char>, contained: bool) -> bool {
    exists|absolute: bool, parent: bool|
        #![trigger absolute_answer_ok(path, absolute), parent_answer_ok(path, parent)]
        absolute_answer_ok(path, absolute) && parent_answer_ok(path, parent) && contained == (!absolute
            && !parent)
}

/// `std::path::Path::is_absolute` on the path. Which paths are absolute
/// depends on the platform; only what holds on every platform is stated: a
/// path that starts with neither separator and holds no `:` is not absolute.
#[verifier::external_body]
fn path_is_absolute(path: &str) -> (absolute: bool)
    ensures
        absolute_answer_ok(path@, absolute),
{
    std::path::Path::new(path).is_absolute()
}

/// The kind of one component of a path, as `std::path::Component` tells
/// them apart.
#[derive(Clone, Copy, Debug, PartialEq, Eq, Structural)]
enum PathPart {
    Prefix,
    Root,
    Current,
    Parent,
    Normal,
}

/// Some component of the path is `..`.
spec fn has_parent_part(parts: Seq<PathPart>) -> bool {
    exists|i: int| 0 <= i < parts.len() && #[trigger] parts[i] == PathPart::Parent
}

/// `std::path::Path::components` on the path, each component given by its
/// kind. Which separators split components depends on the platform; only
/// what holds on every platform is stated of the `..` components: `..` and
/// `../...` have one, a path without two dots in a row has none, and a path
/// without root or prefix (not starting with `/` or `\`, no `:`) has one
/// when a `/`-separated segment is `..`, and exactly then if it holds no
/// `\`.
#[verifier::external_body]
fn path_components(path: &str) -> (parts: Vec<PathPart>)
    ensures
        parent_answer_ok(path@, has_parent_part(parts@)),
{
    std::path::Path::new(path).components().map(|component| match component {
        Component::Prefix(_) => PathPart::Prefix,
        Component::RootDir => PathPart::Root,
        Component::CurDir => PathPart::Current,
        Component::ParentDir => PathPart::Parent,
        Component::Normal(_) => PathPart::Normal,
    }).collect()
}

/// Whether the path has a `..` component.
fn path_has_parent_component(path: &str) -> (parent: bool)
    ensures
        parent_answer_ok(path@, parent),
{
    let parts = path_components(path);
    let n = parts.len();
    let mut i: usize = 0;
    while i < n
        invariant
            n == parts@.len(),
            0 <= i <= n,
            forall|k: int| 0 <= k < i ==> parts@[k] != PathPart::Parent,
            parent_answer_ok(path@, has_parent_part(parts@)),
        decreases n - i,
    {
        if parts[i] == PathPart::Parent {
            assert(parts@[i as int] == PathPart::Parent);
            assert(has_parent_part(parts@));
            return true;
        }
        i = i + 1;
    }
    assert(!has_parent_part(parts@));
    false
}

/// Whether an image path stays inside the assets directory: it is neither
/// absolute nor has a `..` component, so a malformed catalog entry cannot
/// reach outside it.
pub fn image_path_is_contained(path: &str) -> (contained: bool)
    ensures
        containment_answer_ok(path@, contained),
        contained ==> !starts_with_parent(path@),
        surely_relative(path@) && !has_double_dot(path@) ==> contained,
        surely_relative(path@) && has_parent_segment(path@) ==> !contained,
        surely_relative(path@) && !path@.contains('\\') ==> (contained <==> !has_parent_segment(path@)),
{
    let absolute = path_is_absolute(path);
    let parent = path_has_parent_component(path);
    let contained = !absolute && !parent;
    assert(absolute_answer_ok(path@, absolute) && parent_answer_ok(path@, parent));
    contained
}

/// Whether an identifier is non-empty and made of alphanumerics and
/// underscores.
fn id_is_valid(id: &str) -> (valid: bool)
    ensures
        valid == is_valid_id(id@),
{
    let n = id.unicode_len();
    if n == 0 {
        return false;
    }
    let mut i: usize = 0;
    while i < n
        invariant
            n == id@.len(),
            0 <= i <= n,
            forall|k: int| 0 <= k < i ==> is_id_char(#[trigger] id@[k]),
        decreases n - i,
    {
        let c = id.get_char(i);
        if !(is_alphanumeric(c) || c == '_') {
            assert(!is_id_char(id@[i as int]));
            return false;
        }
        i = i + 1;
    }
    true
}

impl Fish {
    /// Validates fish data integrity. The image path's extension is read
    /// with the platform's path rules; whatever they answer, the result is
    /// the one `validate_given_extension` gives for that answer.
    pub fn validate(&self) -> (result: Result<(), ValidationError>)
        ensures
            exists|has_extension: bool|
                extension_answer_ok(self.image_path@, has_extension) && validation_agrees(
                    result,
                    #[trigger] validation_issue(self@, has_extension),
                ),
    {
        let has_extension = path_has_extension(self.image_path.as_str());
        self.validate_given_extension(has_extension)
    }

    /// Validates the fish, given whether its image path has an extension:
    /// the error is the first rule broken, in the order identifier, name,
    /// species, presence of facts, each fact in turn, image path.
    pub fn validate_given_extension(&self, has_extension: bool) -> (result: Result<(), ValidationError>)
        ensures
            validation_agrees(result, validation_issue(self@, has_extension)),
    {
        if !id_is_valid(self.id.as_str()) {
            return Err(ValidationError::InvalidId(self.id.clone()));
        }
        if str_is_blank(self.name.as_str()) {
            return Err(ValidationError::EmptyField(String::from_str("name")));
        }
        let name_length = self.name.as_str().unicode_len();
        if name_length > MAX_NAME_CHARS {
            return Err(ValidationError::FieldTooLong { field: String::from_str("name"), length: name_length });
        }
        if str_is_blank(self.species.as_str()) {
            return Err(ValidationError::EmptyField(String::from_str("species")));
        }
        let species_length = self.species.as_str().unicode_len();
        if species_length > MAX_SPECIES_CHARS {
            return Err(ValidationError::FieldTooLong {
                field: String::from_str("species"),
                length: species_length,
            });
        }
        if self.facts.len() == 0 {
            return Err(ValidationError::EmptyFacts);
        }
        let ghost facts = self@.facts;
        let n = self.facts.len();
        let mut i: usize = 0;
        while i < n
            invariant
                n == self.facts@.len(),
                facts == self@.facts,
                facts.len() == n,
                n > 0,
                is_valid_id(self.id@),
                !is_blank(self.name@),
                self.name@.len() <= MAX_NAME_CHARS,
                !is_blank(self.species@),
                self.species@.len() <= MAX_SPECIES_CHARS,
                0 <= i <= n,
                fact_issue_from(facts, 0) == fact_issue_from(facts, i as int),
            decreases n - i,
        {
            let fact = &self.facts[i];
            assert(facts[i as int] == fact@);
            if str_is_blank(fact.as_str()) {
                return Err(ValidationError::EmptyFact(i));
            }
            let length = fact.as_str().as_bytes().len();
            if length > MAX_FACT_BYTES {
                return Err(ValidationError::FactTooLong { index: i, length });
            }
            i = i + 1;
        }
        if !has_extension {
            return Err(ValidationError::InvalidImagePath(self.image_path.clone()));
        }
        Ok(())
    }
}

/// The text that describes a validation problem.
pub open spec fn validation_message(issue: ValidationIssue) -> Seq<char> {
    match issue {
        ValidationIssue::InvalidId(id) => "Invalid fish ID: "@ + id,
        ValidationIssue::EmptyField(field) => "Empty required field: "@ + field,
        ValidationIssue::FieldTooLong { field, length } => "Field "@ + field + " too long ("@ + decimal(
            length as nat,
        ) + " chars)"@,
        ValidationIssue::EmptyFacts => "Fish must provide at least one fact"@,
        ValidationIssue::EmptyFact(index) => "Fact "@ + decimal((index + 1) as nat) + " is empty"@,
        ValidationIssue::FactTooLong { index, length } => "Fact "@ + decimal((index + 1) as nat) + " too long ("@
            + decimal(length as nat) + " chars, max 500)"@,
        ValidationIssue::InvalidImagePath(path) => "Invalid image path: "@ + path,
    }
}

impl ValidationError {
    /// Describes the problem for a person, counting facts from one.
    pub fn message(&self) -> (text: String)
        ensures
            text@ == validation_message(self@),
    {
        match self {
            ValidationError::InvalidId(id) => {
                let mut text = String::from_str("Invalid fish ID: ");
                text.append(id.as_str());
                text
            },
            ValidationError::EmptyField(field) => {
                let mut text = String::from_str("Empty required field: ");
                text.append(field.as_str());
                text
            },
            ValidationError::FieldTooLong { field, length } => {
                let mut text = String::from_str("Field ");
                text.append(field.as_str());
                text.append(" too long (");
                let number = decimal_string(*length as u128);
                text.append(number.as_str());
                text.append(" chars)");
                text
            },
            ValidationError::EmptyFacts => String::from_str("Fish must provide at least one fact"),
            ValidationError::EmptyFact(index) => {
                let mut text = String::from_str("Fact ");
                let number = decimal_string(*index as u128 + 1);
                text.append(number.as_str());
                text.append(" is empty");
                text
            },
            ValidationError::FactTooLong { index, length } => {
                let mut text = String::from_str("Fact ");
                let number = decimal_string(*index as u128 + 1);
                text.append(number.as_str());
                text.append(" too long (");
                let count = decimal_string(*length as u128);
                text.append(count.as_str());
                text.append(" chars, max 500)");
                text
            },
            ValidationError::InvalidImagePath(path) => {
                let mut text = String::from_str("Invalid image path: ");
                text.append(path.as_str());
                text
            },
        }
    }
}


/// A character an identifier may not hold: among ASCII characters, any
/// that is neither a letter, a digit nor `_` (a space, `-`, `.`, ...);
/// beyond ASCII, any that `char::is_alphanumeric` rejects.
pub open spec fn forbidden_in_id(c: char) -> bool {
    if (c as u32) < 128 {
        !('a' <= c <= 'z') && !('A' <= c <= 'Z') && !('0' <= c <= '9') && c != '_'
    } else {
        !char_is_alphanumeric(c)
    }
}

/// An identifier holding a forbidden character anywhere is refused with
/// `InvalidId` carrying the identifier, before any other check of the
/// fish, whatever its other fields are.
pub proof fn lemma_forbidden_character_refuses_id(fish: FishView, has_extension: bool, i: int)
    requires
        0 <= i < fish.id.len(),
        forbidden_in_id(fish.id[i]),
    ensures
        validation_issue(fish, has_extension) == Some(ValidationIssue::InvalidId(fish.id)),
{
    assert(!is_id_char(fish.id[i]));
}

/// An identifier made of ASCII letters, digits and underscores only, with
/// at least one character, passes the identifier rule: a fish with such an
/// identifier is never refused with `InvalidId`.
pub proof fn lemma_word_id_is_accepted(fish: FishView, has_extension: bool)
    requires
        fish.id.len() > 0,
        forall|i: int|
            0 <= i < fish.id.len() ==> {
                let c = #[trigger] fish.id[i];
                'a' <= c <= 'z' || 'A' <= c <= 'Z' || '0' <= c <= '9' || c == '_'
            },
    ensures
        is_valid_id(fish.id),
        !(validation_issue(fish, has_extension) matches Some(ValidationIssue::InvalidId(_))),
{
    assert forall|i: int| 0 <= i < fish.id.len() implies is_id_char(#[trigger] fish.id[i]) by {
        let c = fish.id[i];
        assert((c as u32) < 128);
    }
    lemma_fact_issue_is_about_facts(fish.facts, 0);
}

/// The facts check only ever reports a problem with a fact.
proof fn lemma_fact_issue_is_about_facts(facts: Seq<Seq<char>>, i: int)
    ensures
        fact_issue_from(facts, i) matches Some(issue) ==> (issue is EmptyFact || issue is FactTooLong),
    decreases facts.len() - i,
{
    if 0 <= i < facts.len() {
        lemma_fact_issue_is_about_facts(facts, i + 1);
    }
}

} // verus!
