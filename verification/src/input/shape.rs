//! The shapes of the tokens that carry notes and a technique.
//!
//! A group, a combination and an input are written alike: an optional note,
//! an optional technique marker, the body, and again an optional technique
//! marker and an optional note. Each shape is a regular expression with five
//! capture groups, and matching is left to the `regex` crate.

use vstd::prelude::*;

verus! {

/// `(note) <technique> [ entries ] <technique> (note)`
pub const GROUP_SHAPE: &'static str =
    r"^(\([^\(\)]+?\))?\s*(<.+?>)?\s*(\[.+\])\s*(<.+?>)?\s*(\([^\(\)]+?\))?$";

/// `(note) <technique> symbol <technique> (note)`
pub const INPUT_SHAPE: &'static str =
    r"^(\([^\(\)]+?\))?\s*(<.+?>)?\s*([a-zA-Z0-9]+)\s*(<.+?>)?\s*(\([^\(\)]+?\))?$";

/// `(note) <technique> item + item <technique> (note)`
pub const COMBINATION_SHAPE: &'static str =
    r"^(\([^\(\)]+?\))?\s*(<.+?>)?\s*(.+?)\s*(<.+?>)?\s*(\([^\(\)]+?\))?$";

/// What the `regex` crate finds when it searches `text` for the regular
/// expression `pattern`: `None` where `pattern` does not compile or nothing
/// in `text` matches it; else, for each capture group of the first match,
/// the text that it matched, if it took part. The whole match is the group
/// at index 0. The crate decides; this library only gives the result a name.
pub uninterp spec fn capture_groups(pattern: Seq<char>, text: Seq<char>) -> Option<
    Seq<Option<Seq<char>>>,
>;

/// The texts of a list of optional strings.
pub open spec fn groups_view(groups: Option<Vec<Option<String>>>) -> Option<
    Seq<Option<Seq<char>>>,
> {
    match groups {
        Some(groups) => Some(Seq::new(groups.len() as nat, |i: int| crate::input::text_of(groups[i]))),
        None => None,
    }
}

/// Searches `text` for the regular expression `pattern`. It compiles the
/// pattern with `regex::Regex::new`, searches with `regex::Regex::captures`,
/// and copies, for each group that `regex::Captures::iter` hands out, what
/// `regex::Match::as_str` says that it matched. Nothing is proved of this
/// function. Its contract claims one thing: that what it returns depends on
/// `pattern` and `text` alone, so that the result can bear a name.
#[verifier::external_body]
fn find_capture_groups(pattern: &str, text: &str) -> (groups: Option<Vec<Option<String>>>)
    ensures
        groups_view(groups) == capture_groups(pattern@, text@),
{
    let expression = regex::Regex::new(pattern).ok()?;
    let found = expression.captures(text)?;
    Some(found.iter().map(|group| group.map(|part| part.as_str().to_string())).collect())
}

/// The parts of a token that has one of the shapes.
#[derive(Debug, PartialEq)]
pub struct Parts {
    pub opening_note: Option<String>,
    pub opening_technique: Option<String>,
    pub body: String,
    pub closing_technique: Option<String>,
    pub closing_note: Option<String>,
}

/// The parts of a token, as contracts see them.
pub struct PartsView {
    pub opening_note: Option<Seq<char>>,
    pub opening_technique: Option<Seq<char>>,
    pub body: Seq<char>,
    pub closing_technique: Option<Seq<char>>,
    pub closing_note: Option<Seq<char>>,
}

impl View for Parts {
    type V = PartsView;

    open spec fn view(&self) -> PartsView {
        PartsView {
            opening_note: crate::input::text_of(self.opening_note),
            opening_technique: crate::input::text_of(self.opening_technique),
            body: self.body@,
            closing_technique: crate::input::text_of(self.closing_technique),
            closing_note: crate::input::text_of(self.closing_note),
        }
    }
}

/// The parts that were found, as contracts see them.
pub open spec fn parts_view(parts: Option<Parts>) -> Option<PartsView> {
    match parts {
        Some(parts) => Some(parts@),
        None => None,
    }
}

/// The parts that the capture groups of a shape stand for: the five groups
/// behind the whole match, of which the third, the body, must have taken
/// part.
pub open spec fn parts_of(groups: Seq<Option<Seq<char>>>) -> Option<PartsView> {
    if groups.len() == 6 && groups[3] is Some {
        Some(
            PartsView {
                opening_note: groups[1],
                opening_technique: groups[2],
                body: groups[3]->0,
                closing_technique: groups[4],
                closing_note: groups[5],
            },
        )
    } else {
        None
    }
}

/// The parts of `text` under the shape `pattern`, or `None` where `text` has
/// not that shape.
pub open spec fn shape_parts(pattern: Seq<char>, text: Seq<char>) -> Option<PartsView> {
    match capture_groups(pattern, text) {
        Some(groups) => parts_of(groups),
        None => None,
    }
}

/// A copy of the string, if there is one.
fn copy_of(text: &Option<String>) -> (copy: Option<String>)
    ensures
        copy == *text,
{
    match text {
        Some(text) => Some(text.clone()),
        None => None,
    }
}

impl Parts {
    /// Names the capture groups of a shape.
    pub fn from_groups(groups: &Vec<Option<String>>) -> (parts: Option<Parts>)
        ensures
            parts_view(parts) == parts_of(groups_view(Some(*groups))->0),
    {
        if groups.len() != 6 {
            return None;
        }
        match &groups[3] {
            Some(body) => Some(
                Parts {
                    opening_note: copy_of(&groups[1]),
                    opening_technique: copy_of(&groups[2]),
                    body: body.clone(),
                    closing_technique: copy_of(&groups[4]),
                    closing_note: copy_of(&groups[5]),
                },
            ),
            None => None,
        }
    }

    /// Takes `text` apart under the shape `pattern`.
    pub fn of_shape(pattern: &str, text: &str) -> (parts: Option<Parts>)
        ensures
            parts_view(parts) == shape_parts(pattern@, text@),
    {
        match find_capture_groups(pattern, text) {
            Some(groups) => Parts::from_groups(&groups),
            None => None,
        }
    }
}

} // verus!
