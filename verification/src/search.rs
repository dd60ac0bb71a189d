//! Selecting paths by a pattern.

use crate::outside::{accepted_paths, glob_is_match, regex_accepts, regex_is_match};
use crate::text::{chars_of, contains_chars, contains_text};
use vstd::prelude::*;

verus! {

/// How paths are selected.
#[derive(Debug)]
pub enum PatternType {
    /// The path contains the text.
    Literal(String),
    /// Some glob of the set matches the path.
    Glob(globset::GlobSet),
    /// The regular expression matches somewhere in the path.
    Regex(regex::Regex),
}

/// Whether `pattern` selects the path `path`.
pub open spec fn selects(pattern: PatternType, path: Seq<char>) -> bool {
    match pattern {
        PatternType::Literal(text) => contains_text(path, text@),
        PatternType::Glob(set) => accepted_paths(set).contains(path),
        PatternType::Regex(re) => regex_accepts(re).contains(path),
    }
}

/// Those of the first `upto` paths that contain `text`, in order.
pub open spec fn containing(files: Seq<String>, text: Seq<char>, upto: int) -> Seq<Seq<char>>
    decreases upto,
{
    if upto <= 0 {
        Seq::empty()
    } else if contains_text(files[upto - 1]@, text) {
        containing(files, text, upto - 1).push(files[upto - 1]@)
    } else {
        containing(files, text, upto - 1)
    }
}

/// Those of the first `upto` paths that `pattern` selects, in order.
pub open spec fn selected(files: Seq<String>, pattern: PatternType, upto: int) -> Seq<Seq<char>>
    decreases upto,
{
    if upto <= 0 {
        Seq::empty()
    } else if selects(pattern, files[upto - 1]@) {
        selected(files, pattern, upto - 1).push(files[upto - 1]@)
    } else {
        selected(files, pattern, upto - 1)
    }
}

/// The values of a list of strings.
pub open spec fn texts_of(list: Seq<String>) -> Seq<Seq<char>> {
    Seq::new(list.len(), |i: int| list[i]@)
}

/// The paths that contain `pattern`, in their order. Every path contains
/// the empty pattern.
pub fn find(files: &[String], pattern: &str) -> (found: Vec<String>)
    ensures
        texts_of(found@) == containing(files@, pattern@, files@.len() as int),
{
    let needle = chars_of(pattern);
    let mut found: Vec<String> = Vec::new();
    let mut i: usize = 0;
    while i < files.len()
        invariant
            i <= files.len(),
            needle@ == pattern@,
            texts_of(found@) =~= containing(files@, pattern@, i as int),
        decreases files.len() - i,
    {
        let hay = chars_of(files[i].as_str());
        if contains_chars(&hay, &needle) {
            let ghost earlier = found@;
            found.push(files[i].clone());
            proof {
                assert(texts_of(found@) =~= texts_of(earlier).push(files@[i as int]@));
            }
        }
        i = i + 1;
    }
    found
}

/// Whether `pattern` selects `path`.
pub fn is_selected(pattern: &PatternType, path: &str) -> (yes: bool)
    ensures
        yes == selects(*pattern, path@),
{
    match pattern {
        PatternType::Literal(text) => {
            let hay = chars_of(path);
            let needle = chars_of(text.as_str());
            contains_chars(&hay, &needle)
        },
        PatternType::Glob(set) => glob_is_match(set, path),
        PatternType::Regex(re) => regex_is_match(re, path),
    }
}

/// The paths that `pattern` selects, in their order.
pub fn find_advanced(files: &[String], pattern: &PatternType) -> (found: Vec<String>)
    ensures
        texts_of(found@) == selected(files@, *pattern, files@.len() as int),
{
    let mut found: Vec<String> = Vec::new();
    let mut i: usize = 0;
    while i < files.len()
        invariant
            i <= files.len(),
            texts_of(found@) =~= selected(files@, *pattern, i as int),
        decreases files.len() - i,
    {
        if is_selected(pattern, files[i].as_str()) {
            let ghost earlier = found@;
            found.push(files[i].clone());
            proof {
                assert(texts_of(found@) =~= texts_of(earlier).push(files@[i as int]@));
            }
        }
        i = i + 1;
    }
    found
}

/// A literal pattern selects what `find` finds.
pub proof fn literal_selects_what_contains(files: Seq<String>, text: String, upto: int)
    ensures
        selected(files, PatternType::Literal(text), upto) == containing(files, text@, upto),
    decreases upto,
{
    if upto > 0 {
        literal_selects_what_contains(files, text, upto - 1);
    }
}

} // verus!
