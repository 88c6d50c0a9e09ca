//! Reading a notation text.
//!
//! A text is split into tokens at its commas, and each token is offered to
//! five readers in a fixed order: note, context, group, combination, input.
//! A reader answers that the token is not for it, hands back what it read,
//! or refuses the token; the first refusal ends the whole reading.

use vstd::prelude::*;
use vstd::string::*;
use crate::input::error::{Failure, ParseError, ParseErrorKind};
use crate::input::shape::{Parts, PartsView, COMBINATION_SHAPE, GROUP_SHAPE, INPUT_SHAPE};
use crate::input::split::split_char;
use crate::input::{
    CombinationEntry, CombinationEntryView, CombinationItem, CombinationItemView, Context,
    ContextLookup, ContextView, Entry, EntryView, GroupEntry, GroupEntryView, InputEntry,
    InputEntryView, Marks, SymbolicLookup, Technique,
};
use crate::text::{chars_of, contains, split_and_trim, strip_ends, trim};

verus! {

/// How many sequences may stand inside one another, the outermost counted.
pub const MAX_RECURSION: i32 = 3;

/// The side of an entry on which its technique marker has to stand.
#[allow(non_camel_case_types)]
#[derive(Copy, Clone, Debug, PartialEq, Eq, Structural)]
pub enum TokenPosition {
    /// Before the entry.
    OPENING,
    /// After the entry.
    CLOSING,
    /// The entry takes no technique.
    DISALLOWED,
}

impl Default for TokenPosition {
    fn default() -> (position: Self)
        ensures
            position == TokenPosition::OPENING,
    {
        TokenPosition::OPENING
    }
}

/// The refusal of a technique that stands where none may stand.
pub open spec fn misplaced(technique: Technique) -> Failure {
    crate::input::error::failure(ParseErrorKind::MisplacedTechnique, technique.name())
}

/// The refusal of a token that is no entry, and that stands in `enclosing`.
pub open spec fn invalid_entry(token: Seq<char>, enclosing: Seq<char>) -> Failure {
    Failure { kind: ParseErrorKind::InvalidEntry, text: token, enclosing: Some(enclosing) }
}

/// The refusal of a token that is no member of a combination, and that
/// stands in `enclosing`.
pub open spec fn invalid_item(token: Seq<char>, enclosing: Seq<char>) -> Failure {
    Failure { kind: ParseErrorKind::InvalidCombinationItem, text: token, enclosing: Some(enclosing) }
}

/// The refusal of a text that stands too deep inside groups.
pub open spec fn too_deep(text: Seq<char>) -> Failure {
    crate::input::error::failure(ParseErrorKind::RecursionLimitExceeded, text)
}

/// What a reader answers, as contracts see it.
pub open spec fn answer<T: View>(result: Result<Option<T>, ParseError>) -> Result<
    Option<T::V>,
    Failure,
> {
    match result {
        Ok(Some(value)) => Ok(Some(value@)),
        Ok(None) => Ok(None),
        Err(error) => Err(error@),
    }
}

/// What a reading yields, as contracts see it.
pub open spec fn outcome<T: View>(result: Result<T, ParseError>) -> Result<T::V, Failure> {
    match result {
        Ok(value) => Ok(value@),
        Err(error) => Err(error@),
    }
}

/// The entries that a reading yields, as contracts see them.
pub open spec fn entries_outcome(result: Result<Vec<Entry>, ParseError>) -> Result<
    Seq<EntryView>,
    Failure,
> {
    match result {
        Ok(entries) => Ok(crate::input::entries_view(entries@)),
        Err(error) => Err(error@),
    }
}

/// The technique that a marker such as `<tap>` names.
pub open spec fn technique_of(capture: Option<Seq<char>>) -> Result<Option<Technique>, Failure> {
    match capture {
        None => Ok(None),
        Some(marker) => match Technique::named(crate::text::without_ends(marker)) {
            Some(technique) => Ok(Some(technique)),
            None => Err(Technique::unknown(crate::text::without_ends(marker))),
        },
    }
}

/// The technique of an entry with the techniques `opening` before it and
/// `closing` after it: none where none is given; the one that is given where
/// it stands on the side that `position` names; a refusal of the offending
/// technique in every other case.
pub open spec fn placed(
    opening: Option<Technique>,
    closing: Option<Technique>,
    position: TokenPosition,
) -> Result<Option<Technique>, Failure> {
    match (opening, closing) {
        (None, None) => Ok(None),
        (Some(_), Some(second)) => Err(misplaced(second)),
        (Some(technique), None) => if position == TokenPosition::OPENING {
            Ok(Some(technique))
        } else {
            Err(misplaced(technique))
        },
        (None, Some(technique)) => if position == TokenPosition::CLOSING {
            Ok(Some(technique))
        } else {
            Err(misplaced(technique))
        },
    }
}

/// The technique of an entry with the marker `opening` before it and the
/// marker `closing` after it. An unknown name is refused before the sides
/// are looked at, the opening marker's first.
pub open spec fn placed_technique(
    opening: Option<Seq<char>>,
    closing: Option<Seq<char>>,
    position: TokenPosition,
) -> Result<Option<Technique>, Failure> {
    match technique_of(opening) {
        Err(failure) => Err(failure),
        Ok(opening) => match technique_of(closing) {
            Err(failure) => Err(failure),
            Ok(closing) => placed(opening, closing, position),
        },
    }
}

/// The text of a note written as `(text)`.
pub open spec fn note_text(capture: Seq<char>) -> Seq<char> {
    crate::text::trimmed(crate::text::without_ends(capture))
}

/// The text of a note written as `(text)`, if there is one.
pub open spec fn note_of_capture(capture: Option<Seq<char>>) -> Option<Seq<char>> {
    match capture {
        Some(capture) => Some(note_text(capture)),
        None => None,
    }
}

/// The technique and the notes of an entry that has the parts `parts`.
pub open spec fn marks_of_parts(parts: PartsView, position: TokenPosition) -> Result<
    Marks,
    Failure,
> {
    match placed_technique(parts.opening_technique, parts.closing_technique, position) {
        Err(failure) => Err(failure),
        Ok(technique) => Ok(
            Marks {
                technique,
                opening_note: note_of_capture(parts.opening_note),
                closing_note: note_of_capture(parts.closing_note),
            },
        ),
    }
}

/// Occurrences of `open` in `text`, minus those of `close`.
pub open spec fn nesting(text: Seq<char>, open: char, close: char) -> int
    decreases text.len(),
{
    if text.len() == 0 {
        0
    } else {
        nesting(text.drop_last(), open, close) + if text.last() == open {
            1int
        } else if text.last() == close {
            -1int
        } else {
            0int
        }
    }
}

/// Whether `text` is one span from an `open` to the `close` that ends it:
/// it begins with `open`, ends with `close`, and nowhere in between has as
/// many `close` as `open` gone by.
pub open spec fn is_span(text: Seq<char>, open: char, close: char) -> bool {
    &&& text.len() >= 2
    &&& text.first() == open
    &&& text.last() == close
    &&& forall|k: int| 0 < k < text.len() ==> nesting(#[trigger] text.take(k), open, close) > 0
}

/// The note that `token` is, if it is one: one span in parentheses.
pub open spec fn note_of(token: Seq<char>) -> Option<Seq<char>> {
    if is_span(token, '(', ')') {
        Some(note_text(token))
    } else {
        None
    }
}

/// The context that `tag` names: a predefined one, or else one that the
/// game registers.
pub open spec fn context_named<C: ContextLookup>(tag: Seq<char>, registry: &C) -> Option<
    ContextView,
> {
    match ContextView::predefined(tag) {
        Some(context) => Some(context),
        None => registry.custom_context(tag),
    }
}

/// The contexts that the tags name, each tag trimmed first. The first tag
/// that names none is refused.
pub open spec fn contexts_named<C: ContextLookup>(tags: Seq<Seq<char>>, registry: &C) -> Result<
    Seq<ContextView>,
    Failure,
>
    decreases tags.len(),
{
    if tags.len() == 0 {
        Ok(Seq::empty())
    } else {
        match contexts_named(tags.drop_last(), registry) {
            Err(failure) => Err(failure),
            Ok(front) => match context_named(crate::text::trimmed(tags.last()), registry) {
                Some(context) => Ok(front.push(context)),
                None => Err(ContextView::unknown(crate::text::trimmed(tags.last()))),
            },
        }
    }
}

/// The contexts that `token` lists, if it is a context block: one span in
/// braces, with commas between the tags.
pub open spec fn context_of<C: ContextLookup>(token: Seq<char>, registry: &C) -> Result<
    Option<Seq<ContextView>>,
    Failure,
> {
    if is_span(token, '{', '}') {
        match contexts_named(
            crate::text::fields(crate::text::without_ends(token), ','),
            registry,
        ) {
            Ok(contexts) => Ok(Some(contexts)),
            Err(failure) => Err(failure),
        }
    } else {
        Ok(None)
    }
}

/// The input that has the parts `parts`. Inside a group or a combination
/// (`nested`) an input takes no technique.
pub open spec fn input_from(parts: PartsView, nested: bool) -> Result<InputEntryView, Failure> {
    match marks_of_parts(
        parts,
        if nested {
            TokenPosition::DISALLOWED
        } else {
            TokenPosition::OPENING
        },
    ) {
        Err(failure) => Err(failure),
        Ok(marks) => Ok(InputEntryView { symbol: parts.body, marks }),
    }
}

/// The input that `token` is, if it has the shape of one.
pub open spec fn input_of(token: Seq<char>, nested: bool) -> Result<
    Option<InputEntryView>,
    Failure,
> {
    match crate::input::shape::shape_parts(INPUT_SHAPE@, token) {
        None => Ok(None),
        Some(parts) => match input_from(parts, nested) {
            Ok(input) => Ok(Some(input)),
            Err(failure) => Err(failure),
        },
    }
}

/// The group that has the parts `parts`, read at nesting depth `depth`. Its
/// technique stands where `position` says, and so do those of the entries
/// inside it.
pub open spec fn group_from<C: ContextLookup>(
    parts: PartsView,
    registry: &C,
    depth: int,
    position: TokenPosition,
) -> Result<GroupEntryView, Failure>
    decreases MAX_RECURSION - depth, 0int, 0nat,
{
    match marks_of_parts(parts, position) {
        Err(failure) => Err(failure),
        Ok(marks) => {
            let interior = crate::text::trimmed(crate::text::without_ends(parts.body));
            if depth + 1 >= MAX_RECURSION {
                Err(too_deep(interior))
            } else {
                match entries_of(interior, registry, depth + 1, position) {
                    Err(failure) => Err(failure),
                    Ok(entries) => Ok(GroupEntryView { entries, marks }),
                }
            }
        },
    }
}

/// The group that `token` is, if it has the shape of one.
pub open spec fn group_of<C: ContextLookup>(
    token: Seq<char>,
    registry: &C,
    depth: int,
    position: TokenPosition,
) -> Result<Option<GroupEntryView>, Failure>
    decreases MAX_RECURSION - depth, 1int, 0nat,
{
    if !token.contains('[') || !token.contains(']') {
        Ok(None)
    } else {
        match crate::input::shape::shape_parts(GROUP_SHAPE@, token) {
            None => Ok(None),
            Some(parts) => match group_from(parts, registry, depth, position) {
                Ok(group) => Ok(Some(group)),
                Err(failure) => Err(failure),
            },
        }
    }
}

/// The side for the technique of the member at `index` of a combination:
/// behind the first member, before every other.
pub open spec fn item_position(index: int) -> TokenPosition {
    if index == 0 {
        TokenPosition::CLOSING
    } else {
        TokenPosition::OPENING
    }
}

/// The member of a combination that `token` is: a group, or else a bare
/// symbol.
pub open spec fn item_of<C: ContextLookup>(
    token: Seq<char>,
    index: int,
    enclosing: Seq<char>,
    registry: &C,
    depth: int,
) -> Result<CombinationItemView, Failure>
    decreases MAX_RECURSION - depth, 2int, 0nat,
{
    match group_of(token, registry, depth, item_position(index)) {
        Err(failure) => Err(failure),
        Ok(Some(group)) => Ok(CombinationItemView::Group(group)),
        Ok(None) => match input_of(token, true) {
            Err(failure) => Err(failure),
            Ok(Some(input)) => Ok(CombinationItemView::Symbol(input.symbol)),
            Ok(None) => Err(invalid_item(token, enclosing)),
        },
    }
}

/// The members of a combination, read from its tokens in order.
pub open spec fn items_of<C: ContextLookup>(
    tokens: Seq<Seq<char>>,
    enclosing: Seq<char>,
    registry: &C,
    depth: int,
) -> Result<Seq<CombinationItemView>, Failure>
    decreases MAX_RECURSION - depth, 3int, tokens.len(),
{
    if tokens.len() == 0 {
        Ok(Seq::empty())
    } else {
        match items_of(tokens.drop_last(), enclosing, registry, depth) {
            Err(failure) => Err(failure),
            Ok(front) => match item_of(
                tokens.last(),
                tokens.len() - 1,
                enclosing,
                registry,
                depth,
            ) {
                Err(failure) => Err(failure),
                Ok(item) => Ok(front.push(item)),
            },
        }
    }
}

/// The combination that has the parts `parts`. Only at the outermost level
/// does a combination take a technique, and there before it.
pub open spec fn combination_from<C: ContextLookup>(
    parts: PartsView,
    enclosing: Seq<char>,
    registry: &C,
    depth: int,
) -> Result<CombinationEntryView, Failure>
    decreases MAX_RECURSION - depth, 4int, 0nat,
{
    match marks_of_parts(
        parts,
        if depth == 0 {
            TokenPosition::OPENING
        } else {
            TokenPosition::DISALLOWED
        },
    ) {
        Err(failure) => Err(failure),
        Ok(marks) => match crate::input::split::split_tokens(parts.body, '+', false) {
            None => Err(crate::input::split::malformed(parts.body)),
            Some(tokens) => match items_of(tokens, enclosing, registry, depth) {
                Err(failure) => Err(failure),
                Ok(items) => Ok(CombinationEntryView { items, marks }),
            },
        },
    }
}

/// The combination that `token` is, if it has the shape of one.
pub open spec fn combination_of<C: ContextLookup>(
    token: Seq<char>,
    registry: &C,
    depth: int,
) -> Result<Option<CombinationEntryView>, Failure>
    decreases MAX_RECURSION - depth, 5int, 0nat,
{
    if !token.contains('+') {
        Ok(None)
    } else {
        match crate::input::shape::shape_parts(COMBINATION_SHAPE@, token) {
            None => Ok(None),
            Some(parts) => match combination_from(parts, token, registry, depth) {
                Ok(combination) => Ok(Some(combination)),
                Err(failure) => Err(failure),
            },
        }
    }
}

/// The entry that `token` is: the first of note, context, group,
/// combination and input that it can be read as.
pub open spec fn entry_of<C: ContextLookup>(
    token: Seq<char>,
    enclosing: Seq<char>,
    registry: &C,
    depth: int,
    position: TokenPosition,
) -> Result<EntryView, Failure>
    decreases MAX_RECURSION - depth, 6int, 0nat,
{
    match note_of(token) {
        Some(note) => Ok(EntryView::Note(note)),
        None => match context_of(token, registry) {
            Err(failure) => Err(failure),
            Ok(Some(contexts)) => Ok(EntryView::Context(contexts)),
            Ok(None) => match group_of(token, registry, depth, position) {
                Err(failure) => Err(failure),
                Ok(Some(group)) => Ok(EntryView::Group(group)),
                Ok(None) => match combination_of(token, registry, depth) {
                    Err(failure) => Err(failure),
                    Ok(Some(combination)) => Ok(EntryView::Combination(combination)),
                    Ok(None) => match input_of(token, depth > 0) {
                        Err(failure) => Err(failure),
                        Ok(Some(input)) => Ok(EntryView::Input(input)),
                        Ok(None) => Err(invalid_entry(token, enclosing)),
                    },
                },
            },
        },
    }
}

/// The entries that the tokens are, in order. The first token that is
/// refused ends the reading.
pub open spec fn entries_of_tokens<C: ContextLookup>(
    tokens: Seq<Seq<char>>,
    enclosing: Seq<char>,
    registry: &C,
    depth: int,
    position: TokenPosition,
) -> Result<Seq<EntryView>, Failure>
    decreases MAX_RECURSION - depth, 7int, tokens.len(),
{
    if tokens.len() == 0 {
        Ok(Seq::empty())
    } else {
        match entries_of_tokens(tokens.drop_last(), enclosing, registry, depth, position) {
            Err(failure) => Err(failure),
            Ok(front) => match entry_of(tokens.last(), enclosing, registry, depth, position) {
                Err(failure) => Err(failure),
                Ok(entry) => Ok(front.push(entry)),
            },
        }
    }
}

/// The entries that `text` denotes at nesting depth `depth`, where the
/// technique of a group has to stand on the side `position`.
pub open spec fn entries_of<C: ContextLookup>(
    text: Seq<char>,
    registry: &C,
    depth: int,
    position: TokenPosition,
) -> Result<Seq<EntryView>, Failure>
    decreases MAX_RECURSION - depth, 8int, 0nat,
{
    if depth >= MAX_RECURSION {
        Err(too_deep(text))
    } else {
        match crate::input::split::split_tokens(text, ',', true) {
            None => Err(crate::input::split::malformed(text)),
            Some(tokens) => entries_of_tokens(tokens, text, registry, depth, position),
        }
    }
}

/// Reads the technique that a marker such as `<tap>` names.
fn parse_technique_capture(capture: Option<&str>) -> (result: Result<Option<Technique>, ParseError>)
    ensures
        match result {
            Ok(technique) => technique_of(crate::input::text_of(capture)) == Ok::<
                Option<Technique>,
                Failure,
            >(technique),
            Err(error) => technique_of(crate::input::text_of(capture)) == Err::<
                Option<Technique>,
                Failure,
            >(error@),
        },
{
    match capture {
        None => Ok(None),
        Some(marker) => match Technique::from_str(strip_ends(marker)) {
            Ok(technique) => Ok(Some(technique)),
            Err(error) => Err(error),
        },
    }
}

/// Refuses a technique that stands where none may stand.
fn refuse(technique: Technique) -> (error: ParseError)
    ensures
        error@ == misplaced(technique),
{
    ParseError::new(ParseErrorKind::MisplacedTechnique, technique.to_string())
}

/// Settles the technique of an entry from the markers before and after it.
pub fn parse_technique_captures(
    opening_capture: Option<&str>,
    closing_capture: Option<&str>,
    position: TokenPosition,
) -> (result: Result<Option<Technique>, ParseError>)
    ensures
        match result {
            Ok(technique) => placed_technique(
                crate::input::text_of(opening_capture),
                crate::input::text_of(closing_capture),
                position,
            ) == Ok::<Option<Technique>, Failure>(technique),
            Err(error) => placed_technique(
                crate::input::text_of(opening_capture),
                crate::input::text_of(closing_capture),
                position,
            ) == Err::<Option<Technique>, Failure>(error@),
        },
{
    let opening_technique = match parse_technique_capture(opening_capture) {
        Ok(technique) => technique,
        Err(error) => {
            return Err(error);
        },
    };
    let closing_technique = match parse_technique_capture(closing_capture) {
        Ok(technique) => technique,
        Err(error) => {
            return Err(error);
        },
    };
    match (opening_technique, closing_technique) {
        (None, None) => Ok(None),
        (Some(_), Some(second)) => Err(refuse(second)),
        (Some(technique), None) => match position {
            TokenPosition::OPENING => Ok(Some(technique)),
            _ => Err(refuse(technique)),
        },
        (None, Some(technique)) => match position {
            TokenPosition::CLOSING => Ok(Some(technique)),
            _ => Err(refuse(technique)),
        },
    }
}

/// Reads the text of a note written as `(text)`.
fn parse_note_capture(capture: Option<&str>) -> (note: Option<String>)
    ensures
        crate::input::text_of(note) == note_of_capture(crate::input::text_of(capture)),
{
    match capture {
        Some(capture) => Some(trim(strip_ends(capture)).to_owned()),
        None => None,
    }
}

/// Reads the notes before and behind an entry.
fn parse_note_captures(opening_capture: Option<&str>, closing_capture: Option<&str>) -> (notes: (
    Option<String>,
    Option<String>,
))
    ensures
        crate::input::text_of(notes.0) == note_of_capture(crate::input::text_of(opening_capture)),
        crate::input::text_of(notes.1) == note_of_capture(crate::input::text_of(closing_capture)),
{
    (parse_note_capture(opening_capture), parse_note_capture(closing_capture))
}

/// The string as a slice, if there is one.
fn borrowed(text: &Option<String>) -> (slice: Option<&str>)
    ensures
        crate::input::text_of(slice) == crate::input::text_of(*text),
{
    match text {
        Some(text) => Some(text.as_str()),
        None => None,
    }
}

/// Whether the characters are one span from an `open` to the `close` that
/// ends it.
fn spans(chars: &Vec<char>, open: char, close: char) -> (one: bool)
    ensures
        one == is_span(chars@, open, close),
{
    let length = chars.len();
    if length < 2 || chars[0] != open || chars[length - 1] != close {
        return false;
    }
    let mut depth: usize = 0;
    let mut at: usize = 0;
    proof {
        assert(chars@.take(0) =~= Seq::<char>::empty());
    }
    while at < length - 1
        invariant
            length == chars.len(),
            length >= 2,
            at <= length - 1,
            depth <= at,
            at > 0 ==> depth > 0,
            chars[0] == open,
            depth == nesting(chars@.take(at as int), open, close),
            forall|k: int| 0 < k <= at ==> nesting(#[trigger] chars@.take(k), open, close) > 0,
        decreases length - at,
    {
        proof {
            assert(chars@.take(at + 1).drop_last() =~= chars@.take(at as int));
        }
        if chars[at] == open {
            depth += 1;
        } else if chars[at] == close {
            if depth <= 1 {
                return false;
            }
            depth -= 1;
        }
        at += 1;
    }
    true
}

/// Reads a note that stands alone: `(text)`.
pub fn try_parse_note_entry(rawstr: &str) -> (result: Result<Option<String>, ParseError>)
    ensures
        answer(result) == Ok::<Option<Seq<char>>, Failure>(note_of(rawstr@)),
{
    let chars = chars_of(rawstr);
    if !spans(&chars, '(', ')') {
        return Ok(None);
    }
    Ok(Some(trim(strip_ends(rawstr)).to_owned()))
}

/// Resolves one context tag: against the predefined contexts first, then
/// against those of the game.
pub fn resolve_context<C: ContextLookup>(tag: &str, lookup: &C) -> (result: Result<
    Context,
    ParseError,
>)
    ensures
        match result {
            Ok(context) => context_named(tag@, lookup) == Some(context@),
            Err(error) => context_named(tag@, lookup) is None && error@ == ContextView::unknown(
                tag@,
            ),
        },
{
    match Context::try_from(tag) {
        Ok(context) => Ok(context),
        Err(error) => match lookup.lookup_custom_context(tag) {
            Some(context) => Ok(context.clone()),
            None => Err(error),
        },
    }
}

/// Reads a context block: `{tag, tag}`.
pub fn try_parse_context_entry<C: ContextLookup>(rawstr: &str, lookup: &C) -> (result: Result<
    Option<Vec<Context>>,
    ParseError,
>)
    ensures
        match result {
            Ok(Some(contexts)) => context_of(rawstr@, lookup) == Ok::<
                Option<Seq<ContextView>>,
                Failure,
            >(Some(crate::input::contexts_view(contexts@))),
            Ok(None) => context_of(rawstr@, lookup) == Ok::<Option<Seq<ContextView>>, Failure>(
                None,
            ),
            Err(error) => context_of(rawstr@, lookup) == Err::<Option<Seq<ContextView>>, Failure>(
                error@,
            ),
        },
{
    let chars = chars_of(rawstr);
    if !spans(&chars, '{', '}') {
        return Ok(None);
    }
    let interior = strip_ends(rawstr);
    let tags = split_and_trim(interior, ',');
    let ghost fields = crate::text::fields(interior@, ',');
    let mut contexts: Vec<Context> = Vec::new();
    let mut i: usize = 0;
    proof {
        assert(fields.take(0) =~= Seq::<Seq<char>>::empty());
        assert(crate::input::contexts_view(contexts@) =~= Seq::<ContextView>::empty());
        assert(crate::text::slices_view(tags@).len() == fields.len());
    }
    while i < tags.len()
        invariant
            i <= tags.len(),
            tags.len() == fields.len(),
            is_span(rawstr@, '{', '}'),
            interior@ == crate::text::without_ends(rawstr@),
            fields == crate::text::fields(interior@, ','),
            crate::text::slices_view(tags@) == crate::text::trimmed_fields(interior@, ','),
            contexts_named(fields.take(i as int), lookup) == Ok::<Seq<ContextView>, Failure>(
                crate::input::contexts_view(contexts@),
            ),
        decreases tags.len() - i,
    {
        let ghost before = crate::input::contexts_view(contexts@);
        proof {
            assert(fields.take(i + 1).drop_last() =~= fields.take(i as int));
            assert(fields.take(i + 1).last() == fields[i as int]);
            assert(crate::text::slices_view(tags@)[i as int] == tags[i as int]@);
            assert(tags[i as int]@ == crate::text::trimmed(fields[i as int]));
        }
        match resolve_context(tags[i], lookup) {
            Ok(context) => {
                contexts.push(context);
                proof {
                    assert(crate::input::contexts_view(contexts@) =~= before.push(context@));
                }
            },
            Err(error) => {
                proof {
                    assert(contexts_named(fields.take(i + 1), lookup) == Err::<
                        Seq<ContextView>,
                        Failure,
                    >(error@));
                    lemma_contexts_named_fails(fields, i + 1, lookup);
                }
                return Err(error);
            },
        }
        i += 1;
    }
    proof {
        assert(fields.take(fields.len() as int) =~= fields);
    }
    Ok(Some(contexts))
}

/// Once a tag has been refused, the tags that follow change nothing.
proof fn lemma_contexts_named_fails<C: ContextLookup>(tags: Seq<Seq<char>>, upto: int, registry: &C)
    requires
        0 <= upto <= tags.len(),
        contexts_named(tags.take(upto), registry) is Err,
    ensures
        contexts_named(tags, registry) == contexts_named(tags.take(upto), registry),
    decreases tags.len() - upto,
{
    if upto < tags.len() {
        assert(tags.take(upto + 1).drop_last() =~= tags.take(upto));
        lemma_contexts_named_fails(tags, upto + 1, registry);
    } else {
        assert(tags.take(upto) =~= tags);
    }
}

/// Once a token has been refused, the tokens that follow change nothing.
proof fn lemma_entries_of_tokens_fails<C: ContextLookup>(
    tokens: Seq<Seq<char>>,
    upto: int,
    enclosing: Seq<char>,
    registry: &C,
    depth: int,
    position: TokenPosition,
)
    requires
        0 <= upto <= tokens.len(),
        entries_of_tokens(tokens.take(upto), enclosing, registry, depth, position) is Err,
    ensures
        entries_of_tokens(tokens, enclosing, registry, depth, position) == entries_of_tokens(
            tokens.take(upto),
            enclosing,
            registry,
            depth,
            position,
        ),
    decreases tokens.len() - upto,
{
    if upto < tokens.len() {
        assert(tokens.take(upto + 1).drop_last() =~= tokens.take(upto));
        lemma_entries_of_tokens_fails(tokens, upto + 1, enclosing, registry, depth, position);
    } else {
        assert(tokens.take(upto) =~= tokens);
    }
}

/// Once a member has been refused, the members that follow change nothing.
proof fn lemma_items_of_fails<C: ContextLookup>(
    tokens: Seq<Seq<char>>,
    upto: int,
    enclosing: Seq<char>,
    registry: &C,
    depth: int,
)
    requires
        0 <= upto <= tokens.len(),
        items_of(tokens.take(upto), enclosing, registry, depth) is Err,
    ensures
        items_of(tokens, enclosing, registry, depth) == items_of(
            tokens.take(upto),
            enclosing,
            registry,
            depth,
        ),
    decreases tokens.len() - upto,
{
    if upto < tokens.len() {
        assert(tokens.take(upto + 1).drop_last() =~= tokens.take(upto));
        lemma_items_of_fails(tokens, upto + 1, enclosing, registry, depth);
    } else {
        assert(tokens.take(upto) =~= tokens);
    }
}

/// The technique and the notes of an entry, settled from its parts.
pub struct ParsedMarks {
    pub technique: Option<Technique>,
    pub opening_note: Option<String>,
    pub closing_note: Option<String>,
}

impl View for ParsedMarks {
    type V = Marks;

    open spec fn view(&self) -> Marks {
        crate::input::marks_of(self.technique, self.opening_note, self.closing_note)
    }
}

/// Settles the technique and the notes of an entry from its parts.
pub fn parse_marks(parts: &Parts, position: TokenPosition) -> (result: Result<
    ParsedMarks,
    ParseError,
>)
    ensures
        outcome(result) == marks_of_parts(parts@, position),
{
    let (opening_note, closing_note) = parse_note_captures(
        borrowed(&parts.opening_note),
        borrowed(&parts.closing_note),
    );
    match parse_technique_captures(
        borrowed(&parts.opening_technique),
        borrowed(&parts.closing_technique),
        position,
    ) {
        Ok(technique) => Ok(ParsedMarks { technique, opening_note, closing_note }),
        Err(error) => Err(error),
    }
}

/// Builds an input from the parts of a token that has the shape of one.
pub fn input_from_parts(parts: &Parts, nested: bool) -> (result: Result<InputEntry, ParseError>)
    ensures
        outcome(result) == input_from(parts@, nested),
{
    let technique_position = if nested {
        TokenPosition::DISALLOWED
    } else {
        TokenPosition::default()
    };
    match parse_marks(parts, technique_position) {
        Ok(marks) => Ok(
            InputEntry::new(
                parts.body.clone(),
                marks.technique,
                marks.opening_note,
                marks.closing_note,
            ),
        ),
        Err(error) => Err(error),
    }
}

/// Reads an input: `(note) <technique> symbol (note)`.
pub fn try_parse_input_entry(rawstr: &str, nested: bool) -> (result: Result<
    Option<InputEntry>,
    ParseError,
>)
    ensures
        answer(result) == input_of(rawstr@, nested),
{
    match Parts::of_shape(INPUT_SHAPE, rawstr) {
        None => Ok(None),
        Some(parts) => match input_from_parts(&parts, nested) {
            Ok(input) => Ok(Some(input)),
            Err(error) => Err(error),
        },
    }
}

/// Builds a group from the parts of a token that has the shape of one,
/// reading the entries between its brackets one level deeper.
pub fn group_from_parts<S: SymbolicLookup, C: ContextLookup>(
    parts: &Parts,
    symbol_lookup: &S,
    context_lookup: &C,
    recursion_depth: i32,
    technique_position: TokenPosition,
) -> (result: Result<GroupEntry, ParseError>)
    ensures
        outcome(result) == group_from(
            parts@,
            context_lookup,
            recursion_depth as int,
            technique_position,
        ),
    decreases MAX_RECURSION - recursion_depth, 0int, 0nat,
{
    let marks = match parse_marks(parts, technique_position) {
        Ok(marks) => marks,
        Err(error) => {
            return Err(error);
        },
    };
    let entries_str = trim(strip_ends(parts.body.as_str()));
    if recursion_depth >= MAX_RECURSION - 1 {
        return Err(ParseError::new(ParseErrorKind::RecursionLimitExceeded, entries_str.to_owned()));
    }
    match parse_entries(
        entries_str,
        symbol_lookup,
        context_lookup,
        recursion_depth + 1,
        technique_position,
    ) {
        Ok(entries) => {
            let group = GroupEntry::new(
                entries,
                marks.technique,
                marks.opening_note,
                marks.closing_note,
            );
            proof {
                crate::input::lemma_group_view(group);
            }
            Ok(group)
        },
        Err(error) => Err(error),
    }
}

/// Reads a group: `(note) <technique> [ entries ] (note)`.
pub fn try_parse_group_entry<S: SymbolicLookup, C: ContextLookup>(
    rawstr: &str,
    symbol_lookup: &S,
    context_lookup: &C,
    recursion_depth: i32,
    technique_position: TokenPosition,
) -> (result: Result<Option<GroupEntry>, ParseError>)
    ensures
        answer(result) == group_of(
            rawstr@,
            context_lookup,
            recursion_depth as int,
            technique_position,
        ),
    decreases MAX_RECURSION - recursion_depth, 1int, 0nat,
{
    let chars = chars_of(rawstr);
    if !contains(&chars, '[') || !contains(&chars, ']') {
        return Ok(None);
    }
    match Parts::of_shape(GROUP_SHAPE, rawstr) {
        None => Ok(None),
        Some(parts) => match group_from_parts(
            &parts,
            symbol_lookup,
            context_lookup,
            recursion_depth,
            technique_position,
        ) {
            Ok(group) => Ok(Some(group)),
            Err(error) => Err(error),
        },
    }
}

/// Reads one member of the combination `rawstr`: a group, or else a bare
/// symbol.
pub fn parse_combination_item<S: SymbolicLookup, C: ContextLookup>(
    item_str: &str,
    index: usize,
    rawstr: &str,
    symbol_lookup: &S,
    context_lookup: &C,
    recursion_depth: i32,
) -> (result: Result<CombinationItem, ParseError>)
    ensures
        outcome(result) == item_of(
            item_str@,
            index as int,
            rawstr@,
            context_lookup,
            recursion_depth as int,
        ),
    decreases MAX_RECURSION - recursion_depth, 2int, 0nat,
{
    let technique_position = if index == 0 {
        TokenPosition::CLOSING
    } else {
        TokenPosition::OPENING
    };
    match try_parse_group_entry(
        item_str,
        symbol_lookup,
        context_lookup,
        recursion_depth,
        technique_position,
    ) {
        Err(error) => Err(error),
        Ok(Some(group)) => Ok(CombinationItem::Group(group)),
        Ok(None) => match try_parse_input_entry(item_str, true) {
            Err(error) => Err(error),
            Ok(Some(input)) => Ok(CombinationItem::Symbol(input.symbol)),
            Ok(None) => Err(
                ParseError::within(
                    ParseErrorKind::InvalidCombinationItem,
                    item_str.to_owned(),
                    rawstr.to_owned(),
                ),
            ),
        },
    }
}

/// Builds a combination from the parts of the token `rawstr`, which has the
/// shape of one, reading its members between the plus signs.
pub fn combination_from_parts<S: SymbolicLookup, C: ContextLookup>(
    parts: &Parts,
    rawstr: &str,
    symbol_lookup: &S,
    context_lookup: &C,
    recursion_depth: i32,
) -> (result: Result<CombinationEntry, ParseError>)
    ensures
        outcome(result) == combination_from(
            parts@,
            rawstr@,
            context_lookup,
            recursion_depth as int,
        ),
    decreases MAX_RECURSION - recursion_depth, 4int, 0nat,
{
    let technique_position = if recursion_depth == 0 {
        TokenPosition::default()
    } else {
        TokenPosition::DISALLOWED
    };
    let marks = match parse_marks(parts, technique_position) {
        Ok(marks) => marks,
        Err(error) => {
            return Err(error);
        },
    };
    let item_strings = match split_char('+', false, parts.body.as_str()) {
        Ok(item_strings) => item_strings,
        Err(error) => {
            return Err(error);
        },
    };
    let ghost tokens = crate::text::slices_view(item_strings@);
    let mut items: Vec<CombinationItem> = Vec::new();
    let mut i: usize = 0;
    proof {
        assert(tokens.take(0) =~= Seq::<Seq<char>>::empty());
        assert(crate::input::items_view(items@) =~= Seq::<CombinationItemView>::empty());
    }
    while i < item_strings.len()
        invariant
            i <= item_strings.len(),
            tokens == crate::text::slices_view(item_strings@),
            crate::input::split::split_tokens(parts@.body, '+', false) == Some(tokens),
            marks_of_parts(parts@, technique_position) == Ok::<Marks, Failure>(marks@),
            technique_position == if recursion_depth == 0 {
                TokenPosition::OPENING
            } else {
                TokenPosition::DISALLOWED
            },
            items_of(tokens.take(i as int), rawstr@, context_lookup, recursion_depth as int) == Ok::<
                Seq<CombinationItemView>,
                Failure,
            >(crate::input::items_view(items@)),
        decreases item_strings.len() - i,
    {
        let ghost before = crate::input::items_view(items@);
        proof {
            assert(tokens.take(i + 1).drop_last() =~= tokens.take(i as int));
            assert(tokens.take(i + 1).last() == item_strings[i as int]@);
        }
        match parse_combination_item(
            item_strings[i],
            i,
            rawstr,
            symbol_lookup,
            context_lookup,
            recursion_depth,
        ) {
            Ok(item) => {
                items.push(item);
                proof {
                    assert(crate::input::items_view(items@) =~= before.push(item@));
                }
            },
            Err(error) => {
                proof {
                    assert(items_of(
                        tokens.take(i + 1),
                        rawstr@,
                        context_lookup,
                        recursion_depth as int,
                    ) == Err::<Seq<CombinationItemView>, Failure>(error@));
                    lemma_items_of_fails(
                        tokens,
                        i + 1,
                        rawstr@,
                        context_lookup,
                        recursion_depth as int,
                    );
                }
                return Err(error);
            },
        }
        i += 1;
    }
    proof {
        assert(tokens.take(tokens.len() as int) =~= tokens);
    }
    let combination = CombinationEntry::new(
        items,
        marks.technique,
        marks.opening_note,
        marks.closing_note,
    );
    proof {
        crate::input::lemma_combination_view(combination);
    }
    Ok(combination)
}

/// Reads a combination: `(note) <technique> item + item (note)`.
pub fn try_parse_combination_entry<S: SymbolicLookup, C: ContextLookup>(
    rawstr: &str,
    symbol_lookup: &S,
    context_lookup: &C,
    recursion_depth: i32,
) -> (result: Result<Option<CombinationEntry>, ParseError>)
    ensures
        answer(result) == combination_of(rawstr@, context_lookup, recursion_depth as int),
    decreases MAX_RECURSION - recursion_depth, 5int, 0nat,
{
    let chars = chars_of(rawstr);
    if !contains(&chars, '+') {
        return Ok(None);
    }
    match Parts::of_shape(COMBINATION_SHAPE, rawstr) {
        None => Ok(None),
        Some(parts) => match combination_from_parts(
            &parts,
            rawstr,
            symbol_lookup,
            context_lookup,
            recursion_depth,
        ) {
            Ok(combination) => Ok(Some(combination)),
            Err(error) => Err(error),
        },
    }
}

/// Reads one token of the text `rawstr`, offering it to each reader in
/// turn.
pub fn parse_entry<S: SymbolicLookup, C: ContextLookup>(
    entry_str: &str,
    rawstr: &str,
    symbol_lookup: &S,
    context_lookup: &C,
    recursion_depth: i32,
    technique_position: TokenPosition,
) -> (result: Result<Entry, ParseError>)
    ensures
        outcome(result) == entry_of(
            entry_str@,
            rawstr@,
            context_lookup,
            recursion_depth as int,
            technique_position,
        ),
    decreases MAX_RECURSION - recursion_depth, 6int, 0nat,
{
    match try_parse_note_entry(entry_str) {
        Err(error) => {
            return Err(error);
        },
        Ok(Some(note)) => {
            return Ok(Entry::Note(note));
        },
        Ok(None) => {},
    }
    match try_parse_context_entry(entry_str, context_lookup) {
        Err(error) => {
            return Err(error);
        },
        Ok(Some(contexts)) => {
            return Ok(Entry::Context(contexts));
        },
        Ok(None) => {},
    }
    match try_parse_group_entry(
        entry_str,
        symbol_lookup,
        context_lookup,
        recursion_depth,
        technique_position,
    ) {
        Err(error) => {
            return Err(error);
        },
        Ok(Some(group)) => {
            return Ok(Entry::Group(group));
        },
        Ok(None) => {},
    }
    match try_parse_combination_entry(entry_str, symbol_lookup, context_lookup, recursion_depth) {
        Err(error) => {
            return Err(error);
        },
        Ok(Some(combination)) => {
            return Ok(Entry::Combination(combination));
        },
        Ok(None) => {},
    }
    match try_parse_input_entry(entry_str, recursion_depth > 0) {
        Err(error) => Err(error),
        Ok(Some(input)) => Ok(Entry::Input(input)),
        Ok(None) => Err(
            ParseError::within(
                ParseErrorKind::InvalidEntry,
                entry_str.to_owned(),
                rawstr.to_owned(),
            ),
        ),
    }
}

/// Reads the entries of `rawstr`, a whole text or what stands between the
/// brackets of a group, at nesting depth `recursion_depth`.
pub fn parse_entries<S: SymbolicLookup, C: ContextLookup>(
    rawstr: &str,
    symbol_lookup: &S,
    context_lookup: &C,
    recursion_depth: i32,
    technique_position: TokenPosition,
) -> (result: Result<Vec<Entry>, ParseError>)
    ensures
        entries_outcome(result) == entries_of(
            rawstr@,
            context_lookup,
            recursion_depth as int,
            technique_position,
        ),
    decreases MAX_RECURSION - recursion_depth, 8int, 0nat,
{
    if recursion_depth >= MAX_RECURSION {
        return Err(ParseError::new(ParseErrorKind::RecursionLimitExceeded, rawstr.to_owned()));
    }
    let entry_strings = match split_char(',', true, rawstr) {
        Ok(entry_strings) => entry_strings,
        Err(error) => {
            return Err(error);
        },
    };
    let ghost tokens = crate::text::slices_view(entry_strings@);
    let mut entries: Vec<Entry> = Vec::new();
    let mut i: usize = 0;
    proof {
        assert(tokens.take(0) =~= Seq::<Seq<char>>::empty());
        assert(crate::input::entries_view(entries@) =~= Seq::<EntryView>::empty());
    }
    while i < entry_strings.len()
        invariant
            i <= entry_strings.len(),
            recursion_depth < MAX_RECURSION,
            tokens == crate::text::slices_view(entry_strings@),
            crate::input::split::split_tokens(rawstr@, ',', true) == Some(tokens),
            entries_of_tokens(
                tokens.take(i as int),
                rawstr@,
                context_lookup,
                recursion_depth as int,
                technique_position,
            ) == Ok::<Seq<EntryView>, Failure>(crate::input::entries_view(entries@)),
        decreases entry_strings.len() - i,
    {
        let ghost before = crate::input::entries_view(entries@);
        proof {
            assert(tokens.take(i + 1).drop_last() =~= tokens.take(i as int));
            assert(tokens.take(i + 1).last() == entry_strings[i as int]@);
        }
        match parse_entry(
            entry_strings[i],
            rawstr,
            symbol_lookup,
            context_lookup,
            recursion_depth,
            technique_position,
        ) {
            Ok(entry) => {
                entries.push(entry);
                proof {
                    assert(crate::input::entries_view(entries@) =~= before.push(entry@));
                }
            },
            Err(error) => {
                proof {
                    assert(entries_of_tokens(
                        tokens.take(i + 1),
                        rawstr@,
                        context_lookup,
                        recursion_depth as int,
                        technique_position,
                    ) == Err::<Seq<EntryView>, Failure>(error@));
                    lemma_entries_of_tokens_fails(
                        tokens,
                        i + 1,
                        rawstr@,
                        context_lookup,
                        recursion_depth as int,
                        technique_position,
                    );
                }
                return Err(error);
            },
        }
        i += 1;
    }
    proof {
        assert(tokens.take(tokens.len() as int) =~= tokens);
    }
    Ok(entries)
}

} // verus!
