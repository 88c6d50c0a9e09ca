//! What can go wrong while a notation text is read.

use vstd::prelude::*;

verus! {

/// The reasons for which a notation text is refused.
#[derive(Clone, Copy, Debug, PartialEq, Eq, Structural)]
pub enum ParseErrorKind {
    /// Brackets, parentheses or braces do not pair up, or a separator
    /// leaves an empty token behind.
    MalformedNotation,
    /// A token that no kind of entry accepts.
    InvalidEntry,
    /// A member of a combination that is neither a group nor a bare symbol.
    InvalidCombinationItem,
    /// A context tag that is neither predefined nor registered.
    UnknownContext,
    /// A technique marker with an unknown name.
    UnknownTechnique,
    /// A technique marker on the wrong side of its entry, given twice, or
    /// given where none is allowed.
    MisplacedTechnique,
    /// Groups nested deeper than the ceiling.
    RecursionLimitExceeded,
}

/// A refusal as contracts see it: the reason, the offending text, and for
/// a token that is no entry, or no member of a combination, the text in
/// which it stands.
pub struct Failure {
    pub kind: ParseErrorKind,
    pub text: Seq<char>,
    pub enclosing: Option<Seq<char>>,
}

/// The refusal of `text` for the reason `kind`.
pub open spec fn failure(kind: ParseErrorKind, text: Seq<char>) -> Failure {
    Failure { kind, text, enclosing: None }
}

/// A refusal: the reason, the piece of text that caused it, and where it is
/// known, the text in which that piece stands.
#[derive(Debug, PartialEq)]
pub struct ParseError {
    kind: ParseErrorKind,
    text: String,
    enclosing: Option<String>,
}

impl View for ParseError {
    type V = Failure;

    closed spec fn view(&self) -> Failure {
        Failure {
            kind: self.kind,
            text: self.text@,
            enclosing: match self.enclosing {
                Some(enclosing) => Some(enclosing@),
                None => None,
            },
        }
    }
}

impl ParseError {
    /// The refusal of `text` for the reason `kind`.
    pub fn new(kind: ParseErrorKind, text: String) -> (error: Self)
        ensures
            error@ == failure(kind, text@),
    {
        Self { kind, text, enclosing: None }
    }

    /// The refusal of `text`, which stands in `enclosing`, for the reason
    /// `kind`.
    pub fn within(kind: ParseErrorKind, text: String, enclosing: String) -> (error: Self)
        ensures
            error@ == (Failure { kind, text: text@, enclosing: Some(enclosing@) }),
    {
        Self { kind, text, enclosing: Some(enclosing) }
    }

    /// The reason of the refusal.
    pub fn kind(&self) -> (kind: ParseErrorKind)
        ensures
            kind == self@.kind,
    {
        self.kind
    }

    /// The offending piece of the text.
    pub fn text(&self) -> (text: &str)
        ensures
            text@ == self@.text,
    {
        self.text.as_str()
    }

    /// The text in which the offending piece stands, where it is known.
    pub fn enclosing(&self) -> (enclosing: Option<&str>)
        ensures
            match enclosing {
                Some(enclosing) => self@.enclosing == Some(enclosing@),
                None => self@.enclosing is None,
            },
    {
        match &self.enclosing {
            Some(enclosing) => Some(enclosing.as_str()),
            None => None,
        }
    }
}

} // verus!
