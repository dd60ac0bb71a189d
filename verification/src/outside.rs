//! What the library takes from `regex`, `globset`, `serde_json` and `std`, with the
//! contracts it relies on. Nothing in this file is proved: each function
//! states what the function it calls is documented to do.

use vstd::prelude::*;

verus! {

#[verifier::external_type_specification]
#[verifier::external_body]
pub struct ExRegex(regex::Regex);

#[verifier::external_type_specification]
#[verifier::external_body]
pub struct ExRegexError(regex::Error);

#[verifier::external_type_specification]
#[verifier::external_body]
pub struct ExCaptures<'h>(regex::Captures<'h>);

#[verifier::external_type_specification]
#[verifier::external_body]
pub struct ExGlobSet(globset::GlobSet);

#[verifier::external_type_specification]
#[verifier::external_body]
pub struct ExValue(serde_json::Value);

/// Whether `pattern` is a regular expression that `regex` compiles.
pub uninterp spec fn regex_compiles(pattern: Seq<char>) -> bool;

/// What the expression that `Regex::new` makes of `pattern` captures: for
/// each text in which it matches, the capture groups of its leftmost match,
/// group 0 being the whole match. A group that took no part in the match is
/// `None`.
pub uninterp spec fn pattern_captures(pattern: Seq<char>) -> Map<Seq<char>, Seq<Option<Seq<char>>>>;

/// The texts in which a regular expression matches somewhere.
pub uninterp spec fn regex_accepts(re: regex::Regex) -> Set<Seq<char>>;

/// What a regular expression captures: for each text in which it matches,
/// the capture groups of its leftmost match.
pub uninterp spec fn regex_captured(re: regex::Regex) -> Map<Seq<char>, Seq<Option<Seq<char>>>>;

/// The groups that a set of captures holds, by index.
pub uninterp spec fn captured(caps: regex::Captures<'_>) -> Seq<Option<Seq<char>>>;

/// The paths that some glob of the set matches.
pub uninterp spec fn accepted_paths(set: globset::GlobSet) -> Set<Seq<char>>;

/// The parent directory of `path`, as `std::path::Path::parent` gives it.
pub uninterp spec fn parent_of(path: Seq<char>) -> Option<Seq<char>>;

/// The last component of `path`, as `std::path::Path::file_name` gives it.
pub uninterp spec fn file_name_of(path: Seq<char>) -> Option<Seq<char>>;

/// Whether the components of `suffix` end those of `path`, as
/// `std::path::Path::ends_with` decides it.
pub uninterp spec fn path_ends_with(path: Seq<char>, suffix: Seq<char>) -> bool;

/// Whether the components of `base` begin those of `path`, as
/// `std::path::Path::starts_with` decides it.
pub uninterp spec fn path_starts_with(path: Seq<char>, base: Seq<char>) -> bool;

/// `c` is one of the digits `0` to `9`.
pub open spec fn is_digit(c: char) -> bool {
    48 <= c as u32 <= 57
}

/// The number that the decimal digits `digits` denote.
pub open spec fn digits_value(digits: Seq<char>) -> nat
    decreases digits.len(),
{
    if digits.len() == 0 {
        0
    } else {
        (digits_value(digits.drop_last()) * 10 + (digits.last() as u32 - 48)) as nat
    }
}

/// The number that `text` is the decimal notation of: an optional `+`, then
/// one digit or more, denoting a number that a `u64` holds. `None` for any
/// other text.
pub open spec fn parsed_u64(text: Seq<char>) -> Option<u64> {
    let digits = if text.len() > 0 && text[0] == '+' {
        text.drop_first()
    } else {
        text
    };
    if digits.len() > 0 && (forall|i: int| 0 <= i < digits.len() ==> is_digit(#[trigger] digits[i]))
        && digits_value(digits) <= u64::MAX {
        Some(digits_value(digits) as u64)
    } else {
        None
    }
}

/// The value of an optional string.
pub open spec fn text_of(s: Option<String>) -> Option<Seq<char>> {
    match s {
        Some(t) => Some(t@),
        None => None,
    }
}

/// `regex::Regex::new`: compiles `pattern` with the default options. It
/// succeeds exactly on the patterns that compile, and the expression it
/// gives captures what the pattern captures.
#[verifier::external_body]
pub(crate) fn compile_regex(pattern: &str) -> (result: Result<regex::Regex, regex::Error>)
    ensures
        result is Ok <==> regex_compiles(pattern@),
        result is Ok ==> regex_captured(result->Ok_0) == pattern_captures(pattern@),
{
    regex::Regex::new(pattern)
}

/// `regex::Regex::is_match`: whether the expression matches somewhere in
/// `text`.
#[verifier::external_body]
pub(crate) fn regex_is_match(re: &regex::Regex, text: &str) -> (found: bool)
    ensures
        found == regex_accepts(*re).contains(text@),
{
    re.is_match(text)
}

/// `regex::Regex::captures`: the capture groups of the leftmost match in
/// `text`, or `None` where there is no match.
#[verifier::external_body]
pub(crate) fn regex_captures<'h>(re: &regex::Regex, text: &'h str) -> (caps: Option<
    regex::Captures<'h>,
>)
    ensures
        caps is Some <==> regex_captured(*re).dom().contains(text@),
        caps is Some ==> regex_captured(*re)[text@] == captured(caps->0),
{
    re.captures(text)
}

/// `regex::Captures::get`: the text of group `i`, or `None` where there is
/// no such group or it took no part in the match.
#[verifier::external_body]
pub(crate) fn captured_group(caps: &regex::Captures<'_>, i: usize) -> (group: Option<String>)
    ensures
        text_of(group) == (if i < captured(*caps).len() {
            captured(*caps)[i as int]
        } else {
            None
        }),
{
    match caps.get(i) {
        Some(m) => Some(m.as_str().to_string()),
        None => None,
    }
}

/// `globset::GlobSet::is_match`: whether any glob of the set matches `path`.
#[verifier::external_body]
pub(crate) fn glob_is_match(set: &globset::GlobSet, path: &str) -> (found: bool)
    ensures
        found == accepted_paths(*set).contains(path@),
{
    set.is_match(path)
}

/// `std::path::Path::parent`: the path without its last component, or `None`
/// where the path ends in a root or is empty.
#[verifier::external_body]
pub(crate) fn path_parent(path: &str) -> (parent: Option<String>)
    ensures
        text_of(parent) == parent_of(path@),
{
    match std::path::Path::new(path).parent() {
        Some(dir) => Some(dir.to_string_lossy().into_owned()),
        None => None,
    }
}

/// `std::path::Path::file_name`: the last component of the path, or `None`
/// where the path ends in `..` or has no component.
#[verifier::external_body]
pub(crate) fn path_file_name(path: &str) -> (name: Option<String>)
    ensures
        text_of(name) == file_name_of(path@),
{
    match std::path::Path::new(path).file_name() {
        Some(name) => Some(name.to_string_lossy().into_owned()),
        None => None,
    }
}

/// `std::path::Path::ends_with`: whether `suffix` is a suffix of `path`,
/// whole components considered.
#[verifier::external_body]
pub(crate) fn path_has_suffix(path: &str, suffix: &str) -> (ends: bool)
    ensures
        ends == path_ends_with(path@, suffix@),
{
    std::path::Path::new(path).ends_with(suffix)
}

/// `std::path::Path::starts_with`: whether `base` is a prefix of `path`,
/// whole components considered.
#[verifier::external_body]
pub(crate) fn path_has_prefix(path: &str, base: &str) -> (starts: bool)
    ensures
        starts == path_starts_with(path@, base@),
{
    std::path::Path::new(path).starts_with(base)
}

/// `str::parse::<u64>`: the number that `text` denotes, or `None` where it
/// denotes none that a `u64` holds. The text is read as an optional `+`
/// followed by decimal digits only; anything else, a lone sign and the empty
/// text included, is refused, and so is a number too large for `u64`.
#[verifier::external_body]
pub(crate) fn parse_u64(text: &str) -> (number: Option<u64>)
    ensures
        number == parsed_u64(text@),
{
    match text.parse::<u64>() {
        Ok(n) => Some(n),
        Err(_) => None,
    }
}

} // verus!
