//! What is joined into one text, the splitter takes apart again.
//!
//! A list of tokens is joined the way a sequence is written: with a
//! delimiter and a space between two tokens, and with a single space where
//! one of the two is a context block that stands for itself. Splitting the
//! joined text at the delimiter gives the tokens back, provided that each
//! token is one that the splitter goes over without cutting it.

use vstd::prelude::*;
use crate::input::split::{Brace, Scan};

verus! {

/// Whether a text holds nothing but white space.
pub open spec fn all_spaces(text: Seq<char>) -> bool {
    forall|i: int| 0 <= i < text.len() ==> crate::text::is_space(#[trigger] text[i])
}

/// Where a scan for `delimiter` stands when it has gone over `token` from
/// position `at` to its end without handing anything out: how many brackets
/// are open, and whether a context block is. `None` where the scan refuses
/// the token or hands something out on the way. The scan has `depth`
/// brackets open at `at` and stands inside a context block or not
/// (`inside`); with `extract_context` it hands out the context blocks that
/// it meets outside every bracket.
pub open spec fn runs(
    token: Seq<char>,
    delimiter: char,
    extract_context: bool,
    at: int,
    depth: int,
    inside: bool,
) -> Option<(int, bool)>
    decreases token.len() - at,
{
    if at >= token.len() {
        Some((depth, inside))
    } else if token[at] == '{' {
        if !inside && !(extract_context && depth == 0) {
            runs(token, delimiter, extract_context, at + 1, depth, true)
        } else {
            None
        }
    } else if token[at] == '}' {
        if inside {
            runs(token, delimiter, extract_context, at + 1, depth, false)
        } else {
            None
        }
    } else if crate::input::split::is_opener(token[at]) {
        runs(token, delimiter, extract_context, at + 1, depth + 1, inside)
    } else if crate::input::split::is_closer(token[at]) {
        runs(token, delimiter, extract_context, at + 1, depth - 1, inside)
    } else if token[at] == delimiter {
        if depth != 0 || inside {
            runs(token, delimiter, extract_context, at + 1, depth, inside)
        } else {
            None
        }
    } else {
        runs(token, delimiter, extract_context, at + 1, depth, inside)
    }
}

/// Whether the scan goes over `text` without handing anything out, and
/// leaves it with as many brackets open as it entered with, `depth`, and
/// outside a context block as it entered.
pub open spec fn is_steady(text: Seq<char>, delimiter: char, extract_context: bool, depth: int) -> bool {
    runs(text, delimiter, extract_context, 0, depth, false) == Some((depth, false))
}

/// A plain token: tidy, and gone over as a whole from outside every bracket.
pub open spec fn is_plain(token: Seq<char>, delimiter: char, extract_context: bool) -> bool {
    crate::text::is_tidy(token) && is_steady(token, delimiter, extract_context, 0)
}

/// A character that can stand between tokens: none that is white space, a
/// parenthesis, a bracket or a brace.
pub open spec fn is_delimiter(c: char) -> bool {
    !crate::text::is_space(c) && !crate::input::split::is_opener(c)
        && !crate::input::split::is_closer(c) && c != '{' && c != '}'
}

/// A context block: one run between braces, with no brace inside and as many
/// brackets closed as opened.
pub open spec fn is_block(token: Seq<char>) -> bool {
    &&& token.len() >= 2
    &&& token.first() == '{'
    &&& token.last() == '}'
    &&& forall|k: int| 0 < k < token.len() - 1 ==> token[k] != '{' && token[k] != '}'
    &&& crate::input::split::bracket_excess(token) == 0
}

/// How tokens are joined: the delimiter, whether a space stands before it
/// as one stands behind it, and whether context blocks stand for themselves.
pub struct Joint {
    pub delimiter: char,
    pub spaced: bool,
    pub extract_context: bool,
}

/// The joint of the entries of a sequence: `, `.
pub open spec fn comma_joint() -> Joint {
    Joint { delimiter: ',', spaced: false, extract_context: true }
}

/// The joint of the members of a combination: ` + `.
pub open spec fn plus_joint() -> Joint {
    Joint { delimiter: '+', spaced: true, extract_context: false }
}

/// The white space before the delimiter.
pub open spec fn lead(joint: Joint) -> Seq<char> {
    if joint.spaced {
        seq![' ']
    } else {
        Seq::empty()
    }
}

/// What stands between token `index` and the token before it: nothing
/// before the first token, a space next to a context block, the delimiter
/// and its spaces elsewhere.
pub open spec fn gap(joint: Joint, blocks: Seq<bool>, index: int) -> Seq<char> {
    if index <= 0 {
        Seq::empty()
    } else if blocks[index - 1] || blocks[index] {
        seq![' ']
    } else {
        lead(joint) + seq![joint.delimiter, ' ']
    }
}

/// The first `count` tokens, joined. `blocks` says which of the tokens are
/// context blocks.
pub open spec fn joined(joint: Joint, tokens: Seq<Seq<char>>, blocks: Seq<bool>, count: int) -> Seq<
    char,
>
    decreases count,
{
    if count <= 0 {
        Seq::empty()
    } else {
        joined(joint, tokens, blocks, count - 1) + gap(joint, blocks, count - 1) + tokens[count
            - 1]
    }
}

/// Whether each token is what `blocks` says: a context block, which only
/// stands among tokens where context blocks stand for themselves, or a
/// plain token.
pub open spec fn joinable(joint: Joint, tokens: Seq<Seq<char>>, blocks: Seq<bool>) -> bool {
    &&& is_delimiter(joint.delimiter)
    &&& tokens.len() == blocks.len()
    &&& forall|i: int|
        0 <= i < tokens.len() ==> if blocks[i] {
            joint.extract_context && is_block(#[trigger] tokens[i])
        } else {
            is_plain(tokens[i], joint.delimiter, joint.extract_context)
        }
}

/// Where token `index` begins in the joined text.
pub open spec fn begin_of(joint: Joint, tokens: Seq<Seq<char>>, blocks: Seq<bool>, index: int) -> int {
    (joined(joint, tokens, blocks, index).len() + gap(joint, blocks, index).len()) as int
}

/// Where token `index` ends in the joined text.
pub open spec fn end_of(joint: Joint, tokens: Seq<Seq<char>>, blocks: Seq<bool>, index: int) -> int {
    joined(joint, tokens, blocks, index + 1).len() as int
}

/// White space before a text is trimmed away.
proof fn lemma_trim_start_padded(pad: Seq<char>, rest: Seq<char>)
    requires
        all_spaces(pad),
    ensures
        crate::text::trim_start(pad + rest) == crate::text::trim_start(rest),
    decreases pad.len(),
{
    if pad.len() > 0 {
        assert(crate::text::is_space(pad[0]));
        assert((pad + rest).first() == pad[0]);
        assert((pad + rest).drop_first() =~= pad.drop_first() + rest);
        lemma_trim_start_padded(pad.drop_first(), rest);
    } else {
        assert(pad + rest =~= rest);
    }
}

/// White space behind a text is trimmed away.
proof fn lemma_trim_end_padded(rest: Seq<char>, pad: Seq<char>)
    requires
        all_spaces(pad),
    ensures
        crate::text::trim_end(rest + pad) == crate::text::trim_end(rest),
    decreases pad.len(),
{
    if pad.len() > 0 {
        assert(crate::text::is_space(pad[pad.len() - 1]));
        assert((rest + pad).last() == pad[pad.len() - 1]);
        assert((rest + pad).drop_last() =~= rest + pad.drop_last());
        lemma_trim_end_padded(rest, pad.drop_last());
    } else {
        assert(rest + pad =~= rest);
    }
}

/// Trimming takes the white space around a tidy text away, and nothing else.
pub proof fn lemma_trim_padded(before: Seq<char>, token: Seq<char>, after: Seq<char>)
    requires
        all_spaces(before),
        all_spaces(after),
        crate::text::is_tidy(token),
    ensures
        crate::text::trimmed(before + token + after) == token,
{
    assert(before + token + after =~= before + (token + after));
    lemma_trim_start_padded(before, token + after);
    assert((token + after).first() == token.first());
    lemma_trim_end_padded(token, after);
}

/// A text of white space is blank.
pub proof fn lemma_spaces_are_blank(text: Seq<char>)
    requires
        all_spaces(text),
    ensures
        crate::text::is_blank(text),
{
    lemma_trim_start_padded(text, Seq::empty());
    assert(text + Seq::<char>::empty() =~= text);
}

/// The scan goes over a token that stands in a longer text as it goes over
/// the token alone, and nothing but the depth and the brace state change
/// on the way.
proof fn lemma_scan_runs(
    text: Seq<char>,
    delimiter: char,
    extract_context: bool,
    from: int,
    token: Seq<char>,
    at: int,
    state: Scan,
)
    requires
        0 <= from,
        from + token.len() <= text.len(),
        text.subrange(from, from + token.len()) == token,
        0 <= at <= token.len(),
        state.brace != Brace::Extracting,
        runs(token, delimiter, extract_context, at, state.depth, state.brace == Brace::Inline)
            is Some,
    ensures
        ({
            let end = runs(
                token,
                delimiter,
                extract_context,
                at,
                state.depth,
                state.brace == Brace::Inline,
            )->0;
            crate::input::split::scan(text, delimiter, extract_context, from + at, state)
                == crate::input::split::scan(
                text,
                delimiter,
                extract_context,
                from + token.len(),
                Scan {
                    depth: end.0,
                    brace: if end.1 {
                        Brace::Inline
                    } else {
                        Brace::Closed
                    },
                    ..state
                },
            )
        }),
    decreases token.len() - at,
{
    if at < token.len() {
        assert(text[from + at] == token[at]);
        let next = crate::input::split::step(text, delimiter, extract_context, from + at, state);
        assert(next is Some);
        lemma_scan_runs(text, delimiter, extract_context, from, token, at + 1, next->0);
    } else {
        assert(state == Scan { depth: state.depth, brace: state.brace, ..state });
    }
}

/// The scan goes over a steady text that stands in a longer text, and
/// leaves it in the state in which it entered.
proof fn lemma_scan_passes(
    text: Seq<char>,
    delimiter: char,
    extract_context: bool,
    from: int,
    token: Seq<char>,
    state: Scan,
)
    requires
        0 <= from,
        from + token.len() <= text.len(),
        text.subrange(from, from + token.len()) == token,
        is_steady(token, delimiter, extract_context, 0),
        state.depth == 0,
        state.brace == Brace::Closed,
    ensures
        crate::input::split::scan(text, delimiter, extract_context, from, state)
            == crate::input::split::scan(
            text,
            delimiter,
            extract_context,
            from + token.len(),
            state,
        ),
{
    lemma_scan_runs(text, delimiter, extract_context, from, token, 0, state);
    assert(state == Scan { depth: 0, brace: Brace::Closed, ..state });
}

/// Inside a context block that is handed out, the scan goes on to the
/// closing brace and hands the block out there.
proof fn lemma_scan_inside_block(
    text: Seq<char>,
    delimiter: char,
    from: int,
    token: Seq<char>,
    at: int,
    state: Scan,
)
    requires
        0 <= from,
        from + token.len() <= text.len(),
        text.subrange(from, from + token.len()) == token,
        is_block(token),
        1 <= at <= token.len() - 1,
        state.brace == Brace::Extracting,
        state.start == from,
        state.depth + crate::input::split::bracket_excess(token.skip(at)) == 0,
    ensures
        crate::input::split::scan(text, delimiter, true, from + at, state)
            == crate::input::split::scan(
            text,
            delimiter,
            true,
            from + token.len(),
            Scan {
                depth: 0,
                brace: Brace::Closed,
                start: from + token.len(),
                tokens: state.tokens.push(token),
            },
        ),
    decreases token.len() - at,
{
    assert(text[from + at] == token[at]);
    assert(token.skip(at).first() == token[at]);
    assert(token.skip(at).drop_first() =~= token.skip(at + 1));
    let next = crate::input::split::step(text, delimiter, true, from + at, state);
    if at < token.len() - 1 {
        assert(next is Some);
        lemma_scan_inside_block(text, delimiter, from, token, at + 1, next->0);
    } else {
        assert(token[at] == '}');
        assert(crate::input::split::bracket_excess(token.skip(at + 1)) == 0);
        assert(text.subrange(from, from + at + 1) == token);
    }
}

/// The scan hands out a context block that stands in a longer text, and
/// before it what was pending.
proof fn lemma_scan_block(
    text: Seq<char>,
    delimiter: char,
    from: int,
    token: Seq<char>,
    state: Scan,
)
    requires
        0 <= state.start <= from,
        from + token.len() <= text.len(),
        text.subrange(from, from + token.len()) == token,
        is_block(token),
        state.depth == 0,
        state.brace == Brace::Closed,
    ensures
        crate::input::split::scan(text, delimiter, true, from, state)
            == crate::input::split::scan(
            text,
            delimiter,
            true,
            from + token.len(),
            Scan {
                depth: 0,
                brace: Brace::Closed,
                start: from + token.len(),
                tokens: crate::input::split::flushed(
                    state.tokens,
                    text.subrange(state.start, from),
                ).push(token),
            },
        ),
{
    assert(text[from] == token[0]);
    assert(token.skip(0) =~= token);
    assert(token.first() == token[0]);
    assert(token.drop_first() =~= token.skip(1));
    let next = crate::input::split::step(text, delimiter, true, from, state);
    assert(next is Some);
    lemma_scan_inside_block(text, delimiter, from, token, 1, next->0);
}

/// Behind a text, the scan goes over what follows as it goes over that
/// alone.
proof fn lemma_runs_behind(
    first: Seq<char>,
    second: Seq<char>,
    delimiter: char,
    extract_context: bool,
    at: int,
    depth: int,
    inside: bool,
)
    requires
        0 <= at <= second.len(),
    ensures
        runs(first + second, delimiter, extract_context, first.len() + at, depth, inside) == runs(
            second,
            delimiter,
            extract_context,
            at,
            depth,
            inside,
        ),
    decreases second.len() - at,
{
    let whole = first + second;
    if at < second.len() {
        assert(whole[first.len() + at] == second[at]);
        let c = second[at];
        if c == '{' {
            lemma_runs_behind(first, second, delimiter, extract_context, at + 1, depth, true);
        } else if c == '}' {
            lemma_runs_behind(first, second, delimiter, extract_context, at + 1, depth, false);
        } else if crate::input::split::is_opener(c) {
            lemma_runs_behind(first, second, delimiter, extract_context, at + 1, depth + 1, inside);
        } else if crate::input::split::is_closer(c) {
            lemma_runs_behind(first, second, delimiter, extract_context, at + 1, depth - 1, inside);
        } else {
            lemma_runs_behind(first, second, delimiter, extract_context, at + 1, depth, inside);
        }
    }
}

/// From inside the first of two texts in a row, the scan goes to the end
/// of the first and then over the second.
proof fn lemma_runs_through(
    first: Seq<char>,
    second: Seq<char>,
    delimiter: char,
    extract_context: bool,
    at: int,
    depth: int,
    inside: bool,
)
    requires
        0 <= at <= first.len(),
    ensures
        runs(first + second, delimiter, extract_context, at, depth, inside) == match runs(
            first,
            delimiter,
            extract_context,
            at,
            depth,
            inside,
        ) {
            Some(end) => runs(second, delimiter, extract_context, 0, end.0, end.1),
            None => None,
        },
    decreases first.len() - at,
{
    let whole = first + second;
    if at < first.len() {
        assert(whole[at] == first[at]);
        let c = first[at];
        if c == '{' {
            lemma_runs_through(first, second, delimiter, extract_context, at + 1, depth, true);
        } else if c == '}' {
            lemma_runs_through(first, second, delimiter, extract_context, at + 1, depth, false);
        } else if crate::input::split::is_opener(c) {
            lemma_runs_through(
                first,
                second,
                delimiter,
                extract_context,
                at + 1,
                depth + 1,
                inside,
            );
        } else if crate::input::split::is_closer(c) {
            lemma_runs_through(
                first,
                second,
                delimiter,
                extract_context,
                at + 1,
                depth - 1,
                inside,
            );
        } else {
            lemma_runs_through(first, second, delimiter, extract_context, at + 1, depth, inside);
        }
    } else {
        lemma_runs_behind(first, second, delimiter, extract_context, 0, depth, inside);
    }
}

/// The scan goes over two texts in a row as it goes over the one and then,
/// from where that leaves it, over the other.
pub proof fn lemma_runs_in_a_row(
    first: Seq<char>,
    second: Seq<char>,
    delimiter: char,
    extract_context: bool,
    depth: int,
    inside: bool,
)
    ensures
        runs(first + second, delimiter, extract_context, 0, depth, inside) == match runs(
            first,
            delimiter,
            extract_context,
            0,
            depth,
            inside,
        ) {
            Some(end) => runs(second, delimiter, extract_context, 0, end.0, end.1),
            None => None,
        },
{
    lemma_runs_through(first, second, delimiter, extract_context, 0, depth, inside);
}

/// Two steady texts in a row are steady.
pub proof fn lemma_steady_in_a_row(
    first: Seq<char>,
    second: Seq<char>,
    delimiter: char,
    extract_context: bool,
    depth: int,
)
    requires
        is_steady(first, delimiter, extract_context, depth),
        is_steady(second, delimiter, extract_context, depth),
    ensures
        is_steady(first + second, delimiter, extract_context, depth),
{
    lemma_runs_in_a_row(first, second, delimiter, extract_context, depth, false);
}

/// Whether a text is free of parentheses, brackets and braces.
pub open spec fn is_quiet(text: Seq<char>) -> bool {
    forall|i: int|
        0 <= i < text.len() ==> {
            let c = #[trigger] text[i];
            !crate::input::split::is_opener(c) && !crate::input::split::is_closer(c) && c != '{'
                && c != '}'
        }
}

/// Whether a text is free of a character.
pub open spec fn is_free_of(text: Seq<char>, c: char) -> bool {
    forall|i: int| 0 <= i < text.len() ==> #[trigger] text[i] != c
}

/// The scan goes over a quiet text that is free of the delimiter and stays
/// as it is.
pub proof fn lemma_runs_over_flat(
    text: Seq<char>,
    delimiter: char,
    extract_context: bool,
    at: int,
    depth: int,
    inside: bool,
)
    requires
        is_quiet(text),
        is_free_of(text, delimiter),
        0 <= at <= text.len(),
    ensures
        runs(text, delimiter, extract_context, at, depth, inside) == Some((depth, inside)),
    decreases text.len() - at,
{
    if at < text.len() {
        lemma_runs_over_flat(text, delimiter, extract_context, at + 1, depth, inside);
    }
}

/// A quiet text that is free of the delimiter is steady at every depth.
pub proof fn lemma_flat_is_steady(
    text: Seq<char>,
    delimiter: char,
    extract_context: bool,
    depth: int,
)
    requires
        is_quiet(text),
        is_free_of(text, delimiter),
    ensures
        is_steady(text, delimiter, extract_context, depth),
{
    lemma_runs_over_flat(text, delimiter, extract_context, 0, depth, false);
}

/// Between brackets, or inside a context block, the scan goes over a quiet
/// text and stays as it is, whatever delimiters there are.
pub proof fn lemma_runs_over_enclosed(
    text: Seq<char>,
    delimiter: char,
    extract_context: bool,
    at: int,
    depth: int,
    inside: bool,
)
    requires
        is_quiet(text),
        0 <= at <= text.len(),
        depth != 0 || inside,
    ensures
        runs(text, delimiter, extract_context, at, depth, inside) == Some((depth, inside)),
    decreases text.len() - at,
{
    if at < text.len() {
        lemma_runs_over_enclosed(text, delimiter, extract_context, at + 1, depth, inside);
    }
}

/// A steady text between two brackets, or between two parentheses, is
/// steady one level further out.
pub proof fn lemma_enclosed_is_steady(
    open: char,
    inner: Seq<char>,
    close: char,
    delimiter: char,
    extract_context: bool,
    depth: int,
)
    requires
        crate::input::split::is_opener(open),
        crate::input::split::is_closer(close),
        is_steady(inner, delimiter, extract_context, depth + 1),
    ensures
        is_steady(seq![open] + inner + seq![close], delimiter, extract_context, depth),
{
    let before = seq![open];
    let after = seq![close];
    assert(runs(before, delimiter, extract_context, 0, depth, false) == Some((depth + 1, false)))
        by {
        assert(runs(before, delimiter, extract_context, 1, depth + 1, false) == Some(
            (depth + 1, false),
        ));
    }
    assert(runs(after, delimiter, extract_context, 0, depth + 1, false) == Some((depth, false)))
        by {
        assert(runs(after, delimiter, extract_context, 1, depth, false) == Some((depth, false)));
    }
    lemma_runs_in_a_row(before, inner, delimiter, extract_context, depth, false);
    lemma_runs_in_a_row(before + inner, after, delimiter, extract_context, depth, false);
}

/// A quiet text between braces is steady where the scan does not hand
/// context blocks out: between brackets, or where it hands none out at all.
pub proof fn lemma_braces_are_steady(
    inner: Seq<char>,
    delimiter: char,
    extract_context: bool,
    depth: int,
)
    requires
        is_quiet(inner),
        !(extract_context && depth == 0),
    ensures
        is_steady(seq!['{'] + inner + seq!['}'], delimiter, extract_context, depth),
{
    let before = seq!['{'];
    let after = seq!['}'];
    assert(runs(before, delimiter, extract_context, 0, depth, false) == Some((depth, true))) by {
        assert(runs(before, delimiter, extract_context, 1, depth, true) == Some((depth, true)));
    }
    assert(runs(after, delimiter, extract_context, 0, depth, true) == Some((depth, false))) by {
        assert(runs(after, delimiter, extract_context, 1, depth, false) == Some((depth, false)));
    }
    lemma_runs_over_enclosed(inner, delimiter, extract_context, 0, depth, true);
    lemma_runs_in_a_row(before, inner, delimiter, extract_context, depth, false);
    lemma_runs_in_a_row(before + inner, after, delimiter, extract_context, depth, false);
}

/// The joined text begins with what fewer tokens are joined to.
proof fn lemma_joined_begins(
    joint: Joint,
    tokens: Seq<Seq<char>>,
    blocks: Seq<bool>,
    fewer: int,
    count: int,
)
    requires
        0 <= fewer <= count,
    ensures
        joined(joint, tokens, blocks, fewer).len() <= joined(joint, tokens, blocks, count).len(),
        joined(joint, tokens, blocks, count).take(
            joined(joint, tokens, blocks, fewer).len() as int,
        ) == joined(joint, tokens, blocks, fewer),
    decreases count - fewer,
{
    let whole = joined(joint, tokens, blocks, count);
    if fewer < count {
        lemma_joined_begins(joint, tokens, blocks, fewer, count - 1);
        let shorter = joined(joint, tokens, blocks, count - 1);
        let part = joined(joint, tokens, blocks, fewer);
        assert(whole.take(part.len() as int) =~= shorter.take(part.len() as int));
    } else {
        assert(whole.take(whole.len() as int) =~= whole);
    }
}

/// Where the gap before a token and the token itself lie in the joined text.
proof fn lemma_joined_parts(joint: Joint, tokens: Seq<Seq<char>>, blocks: Seq<bool>, index: int)
    requires
        0 <= index < tokens.len(),
    ensures
        ({
            let text = joined(joint, tokens, blocks, tokens.len() as int);
            let before = joined(joint, tokens, blocks, index).len() as int;
            let begin = begin_of(joint, tokens, blocks, index);
            let end = end_of(joint, tokens, blocks, index);
            &&& 0 <= before <= begin <= end <= text.len()
            &&& end == begin + tokens[index].len()
            &&& text.subrange(before, begin) == gap(joint, blocks, index)
            &&& text.subrange(begin, end) == tokens[index]
            &&& index == tokens.len() - 1 ==> end == text.len()
        }),
{
    let text = joined(joint, tokens, blocks, tokens.len() as int);
    let before = joined(joint, tokens, blocks, index).len() as int;
    let begin = begin_of(joint, tokens, blocks, index);
    let end = end_of(joint, tokens, blocks, index);
    lemma_joined_begins(joint, tokens, blocks, index + 1, tokens.len() as int);
    let upto = joined(joint, tokens, blocks, index + 1);
    assert(upto == joined(joint, tokens, blocks, index) + gap(joint, blocks, index)
        + tokens[index]);
    assert(text.take(end) == upto);
    assert(text.subrange(before, begin) =~= upto.subrange(before, begin));
    assert(upto.subrange(before, begin) =~= gap(joint, blocks, index));
    assert(text.subrange(begin, end) =~= upto.subrange(begin, end));
    assert(upto.subrange(begin, end) =~= tokens[index]);
}

/// What holds of the scan when it has read token `index`: a context block
/// has been handed out; a plain token is pending, with nothing but white
/// space before it.
pub open spec fn stands_after(
    joint: Joint,
    tokens: Seq<Seq<char>>,
    blocks: Seq<bool>,
    index: int,
    state: Scan,
) -> bool {
    let text = joined(joint, tokens, blocks, tokens.len() as int);
    &&& state.depth == 0
    &&& state.brace == Brace::Closed
    &&& if blocks[index] {
        &&& state.start == end_of(joint, tokens, blocks, index)
        &&& state.tokens == tokens.take(index + 1)
    } else {
        &&& state.tokens == tokens.take(index)
        &&& 0 <= state.start <= begin_of(joint, tokens, blocks, index)
        &&& all_spaces(text.subrange(state.start, begin_of(joint, tokens, blocks, index)))
    }
}

/// From the end of token `index` on, the scan hands out the tokens that are
/// left and ends with all of them.
proof fn lemma_scan_rest(
    joint: Joint,
    tokens: Seq<Seq<char>>,
    blocks: Seq<bool>,
    index: int,
    state: Scan,
)
    requires
        joinable(joint, tokens, blocks),
        0 <= index < tokens.len(),
        stands_after(joint, tokens, blocks, index, state),
    ensures
        crate::input::split::scan(
            joined(joint, tokens, blocks, tokens.len() as int),
            joint.delimiter,
            joint.extract_context,
            end_of(joint, tokens, blocks, index),
            state,
        ) == Some(tokens),
    decreases tokens.len() - index,
{
    let delimiter = joint.delimiter;
    let extract = joint.extract_context;
    let text = joined(joint, tokens, blocks, tokens.len() as int);
    let begin = begin_of(joint, tokens, blocks, index);
    let end = end_of(joint, tokens, blocks, index);
    lemma_joined_parts(joint, tokens, blocks, index);
    // what is pending at the end of this token
    let pending = text.subrange(state.start, end);
    let pad = text.subrange(state.start, begin);
    if !blocks[index] {
        assert(pending =~= pad + tokens[index] + Seq::<char>::empty());
        lemma_trim_padded(pad, tokens[index], Seq::empty());
        assert(tokens.take(index).push(tokens[index]) =~= tokens.take(index + 1));
    } else {
        assert(pending =~= Seq::<char>::empty());
        lemma_spaces_are_blank(pending);
    }
    if index == tokens.len() - 1 {
        assert(tokens.take(index + 1) =~= tokens);
    } else {
        let next = index + 1;
        lemma_joined_parts(joint, tokens, blocks, next);
        let next_begin = begin_of(joint, tokens, blocks, next);
        let next_end = end_of(joint, tokens, blocks, next);
        let between = gap(joint, blocks, next);
        assert(text.subrange(end, next_begin) == between);
        if !blocks[index] && !blocks[next] {
            // white space, if any; the delimiter, which hands out the
            // pending token; a space
            let spaces = lead(joint);
            let cut = end + spaces.len();
            assert(text.subrange(end, cut) =~= spaces) by {
                assert(text.subrange(end, cut) =~= between.subrange(0, spaces.len() as int));
            }
            assert(text[cut] == delimiter) by {
                assert(between[spaces.len() as int] == delimiter);
                assert(text.subrange(end, next_begin)[spaces.len() as int] == text[cut]);
            }
            assert(text[cut + 1] == ' ') by {
                assert(between[spaces.len() as int + 1] == ' ');
                assert(text.subrange(end, next_begin)[spaces.len() as int + 1] == text[cut + 1]);
            }
            assert(is_quiet(spaces) && is_free_of(spaces, delimiter));
            lemma_flat_is_steady(spaces, delimiter, extract, 0);
            lemma_scan_passes(text, delimiter, extract, end, spaces, state);
            assert(text.subrange(state.start, cut) =~= pad + tokens[index] + spaces);
            lemma_trim_padded(pad, tokens[index], spaces);
            let first = Scan { start: cut + 1, tokens: tokens.take(next), ..state };
            assert(crate::input::split::step(text, delimiter, extract, cut, state) == Some(first));
            assert(crate::input::split::step(text, delimiter, extract, cut + 1, first) == Some(
                first,
            ));
            assert(crate::input::split::scan(text, delimiter, extract, cut, state)
                == crate::input::split::scan(text, delimiter, extract, cut + 1, first));
            assert(crate::input::split::scan(text, delimiter, extract, cut + 1, first)
                == crate::input::split::scan(text, delimiter, extract, next_begin, first));
            lemma_scan_passes(text, delimiter, extract, next_begin, tokens[next], first);
            assert(all_spaces(text.subrange(first.start, next_begin))) by {
                assert(text.subrange(first.start, next_begin) =~= seq![' ']);
            }
            lemma_scan_rest(joint, tokens, blocks, next, first);
        } else {
            // a space, and the state stays as it is
            assert(text.subrange(end, next_begin)[0] == text[end]);
            assert(text[end] == ' ');
            assert(crate::input::split::step(text, delimiter, extract, end, state) == Some(state));
            assert(crate::input::split::scan(text, delimiter, extract, end, state)
                == crate::input::split::scan(text, delimiter, extract, next_begin, state));
            if blocks[next] {
                lemma_scan_block(text, delimiter, next_begin, tokens[next], state);
                let flushed = crate::input::split::flushed(
                    state.tokens,
                    text.subrange(state.start, next_begin),
                );
                if !blocks[index] {
                    assert(text.subrange(state.start, next_begin) =~= pad + tokens[index]
                        + seq![' ']);
                    lemma_trim_padded(pad, tokens[index], seq![' ']);
                } else {
                    assert(text.subrange(state.start, next_begin) =~= seq![' ']);
                    lemma_spaces_are_blank(text.subrange(state.start, next_begin));
                }
                assert(flushed == tokens.take(next));
                assert(flushed.push(tokens[next]) =~= tokens.take(next + 1));
                let after = Scan {
                    depth: 0,
                    brace: Brace::Closed,
                    start: next_end,
                    tokens: tokens.take(next + 1),
                };
                lemma_scan_rest(joint, tokens, blocks, next, after);
            } else {
                // the token before this plain one is a context block
                lemma_scan_passes(text, delimiter, extract, next_begin, tokens[next], state);
                assert(all_spaces(text.subrange(state.start, next_begin))) by {
                    assert(text.subrange(state.start, next_begin) =~= seq![' ']);
                }
                assert(tokens.take(index + 1) == tokens.take(next));
                lemma_scan_rest(joint, tokens, blocks, next, state);
            }
        }
    }
}

/// Splitting a joined text at its delimiter gives the tokens back that were
/// joined.
pub proof fn lemma_split_joined(joint: Joint, tokens: Seq<Seq<char>>, blocks: Seq<bool>)
    requires
        joinable(joint, tokens, blocks),
    ensures
        crate::input::split::split_tokens(
            joined(joint, tokens, blocks, tokens.len() as int),
            joint.delimiter,
            joint.extract_context,
        ) == Some(tokens),
{
    let delimiter = joint.delimiter;
    let extract = joint.extract_context;
    let text = joined(joint, tokens, blocks, tokens.len() as int);
    let start = crate::input::split::initial();
    if tokens.len() == 0 {
        assert(text.subrange(0, 0) =~= Seq::<char>::empty());
        lemma_spaces_are_blank(text.subrange(0, 0));
    } else {
        lemma_joined_parts(joint, tokens, blocks, 0);
        let end = end_of(joint, tokens, blocks, 0);
        assert(begin_of(joint, tokens, blocks, 0) == 0);
        if blocks[0] {
            lemma_scan_block(text, delimiter, 0, tokens[0], start);
            assert(text.subrange(0, 0) =~= Seq::<char>::empty());
            lemma_spaces_are_blank(text.subrange(0, 0));
            assert(Seq::<Seq<char>>::empty().push(tokens[0]) =~= tokens.take(1));
            let after = Scan {
                depth: 0,
                brace: Brace::Closed,
                start: end,
                tokens: tokens.take(1),
            };
            lemma_scan_rest(joint, tokens, blocks, 0, after);
        } else {
            lemma_scan_passes(text, delimiter, extract, 0, tokens[0], start);
            assert(tokens.take(0) =~= Seq::<Seq<char>>::empty());
            assert(text.subrange(0, 0) =~= Seq::<char>::empty());
            lemma_scan_rest(joint, tokens, blocks, 0, start);
        }
    }
}

} // verus!
