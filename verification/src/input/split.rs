//! Splitting a notation text into its top-level tokens.
//!
//! A text is cut at a delimiter, but never inside parentheses, brackets or a
//! context block (a run between braces). On request every context block at
//! the top level is handed out as a token of its own, whether or not a
//! delimiter stands next to it.

use vstd::prelude::*;
use vstd::string::*;
use crate::input::error::{Failure, ParseError, ParseErrorKind};
use crate::text::{chars_of, trim_bounds};

verus! {

/// Where a scan stands with respect to context blocks.
#[derive(Clone, Copy, Debug, PartialEq, Eq, Structural)]
pub enum Brace {
    /// Outside any context block.
    Closed,
    /// Inside a context block that stays part of the surrounding token.
    Inline,
    /// Inside a context block that becomes a token of its own.
    Extracting,
}

/// The state of a left-to-right scan.
pub struct Scan {
    /// Opened parentheses and brackets minus closed ones.
    pub depth: int,
    pub brace: Brace,
    /// Where the text not yet handed out begins.
    pub start: int,
    /// The tokens handed out so far.
    pub tokens: Seq<Seq<char>>,
}

/// An opening parenthesis or bracket.
pub open spec fn is_opener(c: char) -> bool {
    c == '(' || c == '['
}

/// A closing parenthesis or bracket.
pub open spec fn is_closer(c: char) -> bool {
    c == ')' || c == ']'
}

/// `tokens`, followed by what `pending` holds besides white space, if anything.
pub open spec fn flushed(tokens: Seq<Seq<char>>, pending: Seq<char>) -> Seq<Seq<char>> {
    if crate::text::is_blank(pending) {
        tokens
    } else {
        tokens.push(crate::text::trimmed(pending))
    }
}

/// The state after the character at `at`, or `None` where the text is
/// malformed there: a brace inside a context block, a closing brace outside
/// one, or a delimiter with nothing before it.
pub open spec fn step(
    text: Seq<char>,
    delimiter: char,
    extract_context: bool,
    at: int,
    state: Scan,
) -> Option<Scan> {
    let c = text[at];
    if c == '{' {
        if state.brace != Brace::Closed {
            None
        } else if extract_context && state.depth == 0 {
            Some(
                Scan {
                    brace: Brace::Extracting,
                    start: at,
                    tokens: flushed(state.tokens, text.subrange(state.start, at)),
                    ..state
                },
            )
        } else {
            Some(Scan { brace: Brace::Inline, ..state })
        }
    } else if c == '}' {
        match state.brace {
            Brace::Closed => None,
            Brace::Inline => Some(Scan { brace: Brace::Closed, ..state }),
            Brace::Extracting => Some(
                Scan {
                    brace: Brace::Closed,
                    start: at + 1,
                    tokens: state.tokens.push(text.subrange(state.start, at + 1)),
                    ..state
                },
            ),
        }
    } else if is_opener(c) {
        Some(Scan { depth: state.depth + 1, ..state })
    } else if is_closer(c) {
        Some(Scan { depth: state.depth - 1, ..state })
    } else if c == delimiter && state.depth == 0 && state.brace == Brace::Closed {
        if crate::text::is_blank(text.subrange(state.start, at)) {
            None
        } else {
            Some(
                Scan {
                    start: at + 1,
                    tokens: state.tokens.push(
                        crate::text::trimmed(text.subrange(state.start, at)),
                    ),
                    ..state
                },
            )
        }
    } else {
        Some(state)
    }
}

/// The tokens once the whole text is read, or `None` where something is
/// still open at the end.
pub open spec fn finish(text: Seq<char>, state: Scan) -> Option<Seq<Seq<char>>> {
    if state.depth != 0 || state.brace != Brace::Closed {
        None
    } else {
        Some(flushed(state.tokens, text.subrange(state.start, text.len() as int)))
    }
}

/// The result of scanning `text` from position `at` on, in state `state`.
pub open spec fn scan(
    text: Seq<char>,
    delimiter: char,
    extract_context: bool,
    at: int,
    state: Scan,
) -> Option<Seq<Seq<char>>>
    decreases text.len() - at,
{
    if at >= text.len() {
        finish(text, state)
    } else {
        match step(text, delimiter, extract_context, at, state) {
            Some(next) => scan(text, delimiter, extract_context, at + 1, next),
            None => None,
        }
    }
}

/// The state in which a scan begins.
pub open spec fn initial() -> Scan {
    Scan { depth: 0, brace: Brace::Closed, start: 0, tokens: Seq::empty() }
}

/// The top-level tokens of `text`, or `None` where `text` is malformed.
pub open spec fn split_tokens(text: Seq<char>, delimiter: char, extract_context: bool) -> Option<
    Seq<Seq<char>>,
> {
    scan(text, delimiter, extract_context, 0, initial())
}

/// What a character adds to the count of open parentheses and brackets.
pub open spec fn weight(c: char) -> int {
    if is_opener(c) {
        1
    } else if is_closer(c) {
        -1
    } else {
        0
    }
}

/// Opening parentheses and brackets in `text`, minus closing ones.
pub open spec fn bracket_excess(text: Seq<char>) -> int
    decreases text.len(),
{
    if text.len() == 0 {
        0
    } else {
        weight(text.first()) + bracket_excess(text.drop_first())
    }
}

/// Whether the braces of `text` take turns and end closed, for a text that
/// begins inside a context block (`open`) or outside one.
pub open spec fn braces_pair(text: Seq<char>, open: bool) -> bool
    decreases text.len(),
{
    if text.len() == 0 {
        !open
    } else if text.first() == '{' {
        !open && braces_pair(text.drop_first(), true)
    } else if text.first() == '}' {
        open && braces_pair(text.drop_first(), false)
    } else {
        braces_pair(text.drop_first(), open)
    }
}

/// A text is balanced when it closes as many parentheses and brackets as it
/// opens, and its braces pair up without nesting.
pub open spec fn is_balanced(text: Seq<char>) -> bool {
    bracket_excess(text) == 0 && braces_pair(text, false)
}

/// Whether every token is tidy.
pub open spec fn all_tidy(tokens: Seq<Seq<char>>) -> bool {
    forall|i: int| 0 <= i < tokens.len() ==> crate::text::is_tidy(#[trigger] tokens[i])
}

/// What holds of every state that a scan from the start of a text reaches.
pub open spec fn is_reachable(text: Seq<char>, at: int, state: Scan) -> bool {
    &&& 0 <= state.start <= at <= text.len()
    &&& all_tidy(state.tokens)
    &&& state.brace == Brace::Extracting ==> state.start < at && text[state.start] == '{'
}

/// A scan that ends well has closed every bracket that was open or that it
/// met, and has met the braces in turn.
proof fn lemma_scan_needs_balance(
    text: Seq<char>,
    delimiter: char,
    extract_context: bool,
    at: int,
    state: Scan,
)
    requires
        0 <= at <= text.len(),
        scan(text, delimiter, extract_context, at, state) is Some,
    ensures
        state.depth + bracket_excess(text.skip(at)) == 0,
        braces_pair(text.skip(at), state.brace != Brace::Closed),
    decreases text.len() - at,
{
    if at < text.len() {
        let next = step(text, delimiter, extract_context, at, state)->0;
        lemma_scan_needs_balance(text, delimiter, extract_context, at + 1, next);
        assert(text.skip(at).drop_first() =~= text.skip(at + 1));
        assert(text.skip(at).first() == text[at]);
    }
}

/// A scan that has handed out tidy tokens so far ends with tidy tokens.
proof fn lemma_scan_tokens_tidy(
    text: Seq<char>,
    delimiter: char,
    extract_context: bool,
    at: int,
    state: Scan,
)
    requires
        is_reachable(text, at, state),
        scan(text, delimiter, extract_context, at, state) is Some,
    ensures
        all_tidy(scan(text, delimiter, extract_context, at, state)->0),
    decreases text.len() - at,
{
    if at < text.len() {
        let next = step(text, delimiter, extract_context, at, state)->0;
        crate::text::lemma_trimmed_is_tidy(text.subrange(state.start, at));
        lemma_scan_tokens_tidy(text, delimiter, extract_context, at + 1, next);
    } else {
        crate::text::lemma_trimmed_is_tidy(text.subrange(state.start, text.len() as int));
    }
}

/// A text that is not balanced cannot be split.
pub proof fn lemma_unbalanced_text_is_malformed(
    text: Seq<char>,
    delimiter: char,
    extract_context: bool,
)
    requires
        !is_balanced(text),
    ensures
        split_tokens(text, delimiter, extract_context) is None,
{
    if split_tokens(text, delimiter, extract_context) is Some {
        lemma_scan_needs_balance(text, delimiter, extract_context, 0, initial());
        assert(text.skip(0) =~= text);
    }
}

/// Every token of a split is tidy: not empty, and free of white space at
/// both ends.
pub proof fn lemma_tokens_are_tidy(text: Seq<char>, delimiter: char, extract_context: bool)
    ensures
        split_tokens(text, delimiter, extract_context) matches Some(tokens) ==> all_tidy(tokens),
{
    if split_tokens(text, delimiter, extract_context) is Some {
        lemma_scan_tokens_tidy(text, delimiter, extract_context, 0, initial());
    }
}

/// The refusal of a malformed text.
pub open spec fn malformed(text: Seq<char>) -> Failure {
    crate::input::error::failure(ParseErrorKind::MalformedNotation, text)
}

/// Splits `rawstr` at each `delimiter` that stands outside parentheses,
/// brackets and context blocks. The tokens come trimmed, and none is empty.
/// With `extract_context`, each context block at the top level is a token of
/// its own.
pub fn split_char<'a>(delimiter: char, extract_context: bool, rawstr: &'a str) -> (result: Result<
    Vec<&'a str>,
    ParseError,
>)
    ensures
        match result {
            Ok(tokens) => split_tokens(rawstr@, delimiter, extract_context) == Some(
                crate::text::slices_view(tokens@),
            ),
            Err(error) => split_tokens(rawstr@, delimiter, extract_context) is None && error@
                == malformed(rawstr@),
        },
        result matches Ok(tokens) ==> all_tidy(crate::text::slices_view(tokens@)),
        !is_balanced(rawstr@) ==> result is Err,
{
    proof {
        lemma_tokens_are_tidy(rawstr@, delimiter, extract_context);
        if !is_balanced(rawstr@) {
            lemma_unbalanced_text_is_malformed(rawstr@, delimiter, extract_context);
        }
    }
    let chars = chars_of(rawstr);
    let length = chars.len();
    let mut tokens: Vec<&'a str> = Vec::new();
    let mut depth: i128 = 0;
    let mut brace = Brace::Closed;
    let mut start: usize = 0;
    let mut at: usize = 0;
    proof {
        assert(crate::text::slices_view(tokens@) =~= Seq::<Seq<char>>::empty());
    }
    while at < length
        invariant
            chars@ == rawstr@,
            length == chars.len(),
            start <= at <= length,
            -(at as int) <= depth <= at as int,
            scan(
                rawstr@,
                delimiter,
                extract_context,
                at as int,
                Scan { depth: depth as int, brace, start: start as int, tokens: crate::text::slices_view(tokens@) },
            ) == split_tokens(rawstr@, delimiter, extract_context),
        decreases length - at,
    {
        let c = chars[at];
        let ghost before = crate::text::slices_view(tokens@);
        if c == '{' {
            match brace {
                Brace::Closed => {},
                _ => {
                    return Err(ParseError::new(ParseErrorKind::MalformedNotation, rawstr.to_owned()));
                },
            }
            if extract_context && depth == 0 {
                let (first, last) = trim_bounds(&chars, start, at);
                if first < last {
                    tokens.push(rawstr.substring_char(first, last));
                    proof {
                        assert(crate::text::slices_view(tokens@) =~= before.push(
                            crate::text::trimmed(rawstr@.subrange(start as int, at as int)),
                        ));
                    }
                }
                brace = Brace::Extracting;
                start = at;
            } else {
                brace = Brace::Inline;
            }
        } else if c == '}' {
            match brace {
                Brace::Closed => {
                    return Err(ParseError::new(ParseErrorKind::MalformedNotation, rawstr.to_owned()));
                },
                Brace::Inline => {},
                Brace::Extracting => {
                    tokens.push(rawstr.substring_char(start, at + 1));
                    proof {
                        assert(crate::text::slices_view(tokens@) =~= before.push(
                            rawstr@.subrange(start as int, at + 1),
                        ));
                    }
                    start = at + 1;
                },
            }
            brace = Brace::Closed;
        } else if c == '(' || c == '[' {
            depth = depth + 1;
        } else if c == ')' || c == ']' {
            depth = depth - 1;
        } else if c == delimiter && depth == 0 && brace == Brace::Closed {
            let (first, last) = trim_bounds(&chars, start, at);
            if first == last {
                return Err(ParseError::new(ParseErrorKind::MalformedNotation, rawstr.to_owned()));
            }
            tokens.push(rawstr.substring_char(first, last));
            proof {
                assert(crate::text::slices_view(tokens@) =~= before.push(
                    crate::text::trimmed(rawstr@.subrange(start as int, at as int)),
                ));
            }
            start = at + 1;
        }
        at += 1;
    }
    if depth != 0 || brace != Brace::Closed {
        return Err(ParseError::new(ParseErrorKind::MalformedNotation, rawstr.to_owned()));
    }
    let ghost before = crate::text::slices_view(tokens@);
    let (first, last) = trim_bounds(&chars, start, length);
    if first < last {
        tokens.push(rawstr.substring_char(first, last));
        proof {
            assert(crate::text::slices_view(tokens@) =~= before.push(
                crate::text::trimmed(rawstr@.subrange(start as int, length as int)),
            ));
        }
    }
    Ok(tokens)
}

} // verus!
