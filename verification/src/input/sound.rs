//! Entries whose text the splitter leaves whole.
//!
//! An entry is sound when its symbols are alphanumeric, its notes free of
//! parentheses, brackets and braces, and the tags of its contexts tidy. The
//! text of a sound entry is tidy, and the splitter goes over it without
//! cutting it; so the text of a sequence of sound entries, split at its
//! commas, falls into the texts of the entries.

use vstd::prelude::*;
use crate::input::parse::TokenPosition;
use crate::input::print::IndexPosition;
use crate::input::{
    CombinationItemView, ContextLookup, ContextView, EntryView, GroupEntryView, Marks, Technique,
};

verus! {

/// A letter of the Latin alphabet or a digit.
pub open spec fn is_symbol_char(c: char) -> bool {
    ('a' <= c <= 'z') || ('A' <= c <= 'Z') || ('0' <= c <= '9')
}

/// A symbol as the notation writes it: letters and digits, at least one.
pub open spec fn is_sound_symbol(symbol: Seq<char>) -> bool {
    symbol.len() > 0 && forall|i: int| 0 <= i < symbol.len() ==> is_symbol_char(#[trigger] symbol[i])
}

/// A note that stands alone and that reading gives back as it was written:
/// free of parentheses, brackets and braces, and without white space at its
/// ends.
pub open spec fn is_sound_note(note: Seq<char>) -> bool {
    crate::input::inverse::is_quiet(note) && crate::text::trimmed(note) == note
}

/// A note before or behind an entry that reading gives back as it was
/// written: tidy, and free of plus signs, parentheses, brackets and braces.
pub open spec fn is_sound_remark(note: Option<Seq<char>>) -> bool {
    match note {
        Some(note) => crate::text::is_tidy(note) && crate::input::inverse::is_quiet(note)
            && crate::input::inverse::is_free_of(note, '+'),
        None => true,
    }
}

/// Whether the notes before and behind an entry are sound.
pub open spec fn has_sound_remarks(marks: Marks) -> bool {
    is_sound_remark(marks.opening_note) && is_sound_remark(marks.closing_note)
}

/// A context that reading gives back as it was written: its tag is tidy and
/// free of commas, parentheses, brackets and braces, and names the context.
pub open spec fn is_sound_context<C: ContextLookup>(context: ContextView, registry: &C) -> bool {
    &&& crate::text::is_tidy(context.token())
    &&& crate::input::inverse::is_quiet(context.token())
    &&& crate::input::inverse::is_free_of(context.token(), ',')
    &&& crate::input::parse::context_named(context.token(), registry) == Some(context)
}

/// Whether a context block holds sound contexts, and at least one.
pub open spec fn are_sound_contexts<C: ContextLookup>(
    contexts: Seq<ContextView>,
    registry: &C,
) -> bool {
    contexts.len() > 0 && forall|i: int|
        0 <= i < contexts.len() ==> is_sound_context(#[trigger] contexts[i], registry)
}

/// Whether a group is sound: its notes are, and each of its entries is.
pub open spec fn is_sound_group<C: ContextLookup>(group: GroupEntryView, registry: &C) -> bool
    decreases group,
{
    &&& has_sound_remarks(group.marks)
    &&& forall|i: int|
        0 <= i < group.entries.len() ==> is_sound_entry(#[trigger] group.entries[i], registry)
}

/// Whether a member of a combination is sound.
pub open spec fn is_sound_item<C: ContextLookup>(item: CombinationItemView, registry: &C) -> bool
    decreases item,
{
    match item {
        CombinationItemView::Symbol(symbol) => is_sound_symbol(symbol),
        CombinationItemView::Group(group) => is_sound_group(group, registry),
    }
}

/// Whether an entry is sound: its symbols, notes and contexts are, down to
/// the innermost group, and a combination has a member.
pub open spec fn is_sound_entry<C: ContextLookup>(entry: EntryView, registry: &C) -> bool
    decreases entry,
{
    match entry {
        EntryView::Input(input) => is_sound_symbol(input.symbol) && has_sound_remarks(
            input.marks,
        ),
        EntryView::Combination(combination) => {
            &&& has_sound_remarks(combination.marks)
            &&& combination.items.len() > 0
            &&& forall|i: int|
                0 <= i < combination.items.len() ==> is_sound_item(
                    #[trigger] combination.items[i],
                    registry,
                )
        },
        EntryView::Group(group) => is_sound_group(group, registry),
        EntryView::Note(note) => is_sound_note(note),
        EntryView::Context(contexts) => are_sound_contexts(contexts, registry),
    }
}

/// Whether every entry of a sequence is sound.
pub open spec fn are_sound_entries<C: ContextLookup>(entries: Seq<EntryView>, registry: &C) -> bool {
    forall|i: int| 0 <= i < entries.len() ==> is_sound_entry(#[trigger] entries[i], registry)
}

/// The characters of the marks that the notation is written with.
pub proof fn lemma_punctuation()
    ensures
        "("@ == seq!['('],
        ")"@ == seq![')'],
        ") "@ == seq![')', ' '],
        " ("@ == seq![' ', '('],
        "<"@ == seq!['<'],
        ">"@ == seq!['>'],
        "> "@ == seq!['>', ' '],
        " <"@ == seq![' ', '<'],
        "[ "@ == seq!['[', ' '],
        " ]"@ == seq![' ', ']'],
        "{"@ == seq!['{'],
        "}"@ == seq!['}'],
        " "@ == seq![' '],
        ", "@ == seq![',', ' '],
        " + "@ == seq![' ', '+', ' '],
{
    reveal_strlit("(");
    reveal_strlit(")");
    reveal_strlit(") ");
    reveal_strlit(" (");
    reveal_strlit("<");
    reveal_strlit(">");
    reveal_strlit("> ");
    reveal_strlit(" <");
    reveal_strlit("[ ");
    reveal_strlit(" ]");
    reveal_strlit("{");
    reveal_strlit("}");
    reveal_strlit(" ");
    reveal_strlit(", ");
    reveal_strlit(" + ");
    assert("("@ =~= seq!['(']);
    assert(")"@ =~= seq![')']);
    assert(") "@ =~= seq![')', ' ']);
    assert(" ("@ =~= seq![' ', '(']);
    assert("<"@ =~= seq!['<']);
    assert(">"@ =~= seq!['>']);
    assert("> "@ =~= seq!['>', ' ']);
    assert(" <"@ =~= seq![' ', '<']);
    assert("[ "@ =~= seq!['[', ' ']);
    assert(" ]"@ =~= seq![' ', ']']);
    assert("{"@ =~= seq!['{']);
    assert("}"@ =~= seq!['}']);
    assert(" "@ =~= seq![' ']);
    assert(", "@ =~= seq![',', ' ']);
    assert(" + "@ =~= seq![' ', '+', ' ']);
}

/// Whether a text is made of small Latin letters, at least one.
pub open spec fn is_word(text: Seq<char>) -> bool {
    text.len() > 0 && forall|i: int| 0 <= i < text.len() ==> 'a' <= #[trigger] text[i] <= 'z'
}

/// The name of a technique is a word.
pub proof fn lemma_technique_name_is_word(technique: Technique)
    ensures
        is_word(technique.name()),
{
    reveal_strlit("charge");
    reveal_strlit("tap");
    reveal_strlit("quick");
    let name = technique.name();
    assert forall|i: int| 0 <= i < name.len() implies 'a' <= #[trigger] name[i] <= 'z' by {
        if i == 0 {
        } else if i == 1 {
        } else if i == 2 {
        } else if i == 3 {
        } else if i == 4 {
        } else if i == 5 {
        }
    }
}

/// One of the two delimiters of the notation: the comma between entries, or
/// the plus sign between the members of a combination.
pub open spec fn is_joint(delimiter: char) -> bool {
    delimiter == ',' || delimiter == '+'
}

/// A tidy text, anything, and a tidy text, in a row, are tidy.
pub proof fn lemma_tidy_in_a_row(first: Seq<char>, between: Seq<char>, last: Seq<char>)
    requires
        crate::text::is_tidy(first),
        crate::text::is_tidy(last),
    ensures
        crate::text::is_tidy(first + between + last),
{
    let whole = first + between + last;
    assert(whole.first() == first.first());
    assert(whole.last() == last.last());
}

/// The scan goes over a quiet text where it is free of the delimiter, and
/// everywhere between brackets.
proof fn lemma_quiet_is_steady(text: Seq<char>, delimiter: char, extract_context: bool, depth: int)
    requires
        crate::input::inverse::is_quiet(text),
        crate::input::inverse::is_free_of(text, delimiter) || depth != 0,
    ensures
        crate::input::inverse::is_steady(text, delimiter, extract_context, depth),
{
    if crate::input::inverse::is_free_of(text, delimiter) {
        crate::input::inverse::lemma_flat_is_steady(text, delimiter, extract_context, depth);
    } else {
        crate::input::inverse::lemma_runs_over_enclosed(
            text,
            delimiter,
            extract_context,
            0,
            depth,
            false,
        );
    }
}

/// A sound symbol is tidy, quiet, and free of both delimiters.
pub proof fn lemma_symbol_is_plain(symbol: Seq<char>)
    requires
        is_sound_symbol(symbol),
    ensures
        crate::text::is_tidy(symbol),
        crate::input::inverse::is_quiet(symbol),
        crate::input::inverse::is_free_of(symbol, ','),
        crate::input::inverse::is_free_of(symbol, '+'),
        crate::input::inverse::is_free_of(symbol, '['),
{
    assert(is_symbol_char(symbol[0]));
    assert(is_symbol_char(symbol[symbol.len() - 1]));
    assert forall|i: int| 0 <= i < symbol.len() implies {
        let c = #[trigger] symbol[i];
        !crate::input::split::is_opener(c) && !crate::input::split::is_closer(c) && c != '{'
            && c != '}' && c != ',' && c != '+'
    } by {
        assert(is_symbol_char(symbol[i]));
    }
}

/// A note between parentheses, or a tag list between braces where context
/// blocks stay in place: steady and tidy.
proof fn lemma_note_text_is_steady(note: Seq<char>, delimiter: char, extract_context: bool, depth: int)
    requires
        crate::input::inverse::is_quiet(note),
        depth >= 0,
    ensures
        crate::input::inverse::is_steady("("@ + note + ")"@, delimiter, extract_context, depth),
        crate::text::is_tidy("("@ + note + ")"@),
{
    lemma_punctuation();
    crate::input::inverse::lemma_runs_over_enclosed(
        note,
        delimiter,
        extract_context,
        0,
        depth + 1,
        false,
    );
    crate::input::inverse::lemma_enclosed_is_steady(
        '(',
        note,
        ')',
        delimiter,
        extract_context,
        depth,
    );
    let text = seq!['('] + note + seq![')'];
    assert(text.first() == '(');
    assert(text.last() == ')');
}

/// The text of a note before an entry is steady.
proof fn lemma_opening_note_is_steady(
    note: Option<Seq<char>>,
    delimiter: char,
    extract_context: bool,
    depth: int,
)
    requires
        is_sound_remark(note),
        is_joint(delimiter),
        depth >= 0,
    ensures
        crate::input::inverse::is_steady(
            crate::input::print::opening_note_text(note),
            delimiter,
            extract_context,
            depth,
        ),
{
    lemma_punctuation();
    match note {
        Some(text) => {
            lemma_note_text_is_steady(text, delimiter, extract_context, depth);
            let space = seq![' '];
            crate::input::inverse::lemma_flat_is_steady(space, delimiter, extract_context, depth);
            crate::input::inverse::lemma_steady_in_a_row(
                "("@ + text + ")"@,
                space,
                delimiter,
                extract_context,
                depth,
            );
            assert(crate::input::print::opening_note_text(note) =~= ("("@ + text + ")"@) + space);
        },
        None => {},
    }
}

/// The text of a note behind an entry is steady.
proof fn lemma_closing_note_is_steady(
    note: Option<Seq<char>>,
    delimiter: char,
    extract_context: bool,
    depth: int,
)
    requires
        is_sound_remark(note),
        is_joint(delimiter),
        depth >= 0,
    ensures
        crate::input::inverse::is_steady(
            crate::input::print::closing_note_text(note),
            delimiter,
            extract_context,
            depth,
        ),
{
    lemma_punctuation();
    match note {
        Some(text) => {
            lemma_note_text_is_steady(text, delimiter, extract_context, depth);
            let space = seq![' '];
            crate::input::inverse::lemma_flat_is_steady(space, delimiter, extract_context, depth);
            crate::input::inverse::lemma_steady_in_a_row(
                space,
                "("@ + text + ")"@,
                delimiter,
                extract_context,
                depth,
            );
            assert(crate::input::print::closing_note_text(note) =~= space + ("("@ + text + ")"@));
        },
        None => {},
    }
}

/// The text of a technique, before or behind an entry, is steady.
proof fn lemma_technique_text_is_steady(
    technique: Option<Technique>,
    slot: TokenPosition,
    delimiter: char,
    extract_context: bool,
    depth: int,
)
    requires
        is_joint(delimiter),
    ensures
        crate::input::inverse::is_steady(
            crate::input::print::opening_technique_text(technique, slot),
            delimiter,
            extract_context,
            depth,
        ),
        crate::input::inverse::is_steady(
            crate::input::print::closing_technique_text(technique, slot),
            delimiter,
            extract_context,
            depth,
        ),
{
    lemma_punctuation();
    let before = crate::input::print::opening_technique_text(technique, slot);
    let behind = crate::input::print::closing_technique_text(technique, slot);
    match technique {
        Some(technique) => {
            lemma_technique_name_is_word(technique);
            let name = technique.name();
            assert forall|i: int| 0 <= i < before.len() implies {
                let c = #[trigger] before[i];
                c == '<' || c == '>' || c == ' ' || ('a' <= c <= 'z')
            } by {
                if slot == TokenPosition::OPENING && 0 < i <= name.len() {
                    assert(before[i] == name[i - 1]);
                }
            }
            assert forall|i: int| 0 <= i < behind.len() implies {
                let c = #[trigger] behind[i];
                c == '<' || c == '>' || c == ' ' || ('a' <= c <= 'z')
            } by {
                if slot == TokenPosition::CLOSING && 1 < i <= name.len() + 1 {
                    assert(behind[i] == name[i - 2]);
                }
            }
        },
        None => {},
    }
    crate::input::inverse::lemma_flat_is_steady(before, delimiter, extract_context, depth);
    crate::input::inverse::lemma_flat_is_steady(behind, delimiter, extract_context, depth);
}

/// Steady contents between sound notes and a technique are steady.
pub proof fn lemma_decorated_is_steady(
    content: Seq<char>,
    marks: Marks,
    slot: TokenPosition,
    delimiter: char,
    extract_context: bool,
    depth: int,
)
    requires
        has_sound_remarks(marks),
        is_joint(delimiter),
        depth >= 0,
        crate::input::inverse::is_steady(content, delimiter, extract_context, depth),
    ensures
        crate::input::inverse::is_steady(
            crate::input::print::decorated(content, marks, slot),
            delimiter,
            extract_context,
            depth,
        ),
{
    let first = crate::input::print::opening_note_text(marks.opening_note);
    let second = crate::input::print::opening_technique_text(marks.technique, slot);
    let fourth = crate::input::print::closing_technique_text(marks.technique, slot);
    let fifth = crate::input::print::closing_note_text(marks.closing_note);
    lemma_opening_note_is_steady(marks.opening_note, delimiter, extract_context, depth);
    lemma_closing_note_is_steady(marks.closing_note, delimiter, extract_context, depth);
    lemma_technique_text_is_steady(marks.technique, slot, delimiter, extract_context, depth);
    crate::input::inverse::lemma_steady_in_a_row(first, second, delimiter, extract_context, depth);
    crate::input::inverse::lemma_steady_in_a_row(
        first + second,
        content,
        delimiter,
        extract_context,
        depth,
    );
    crate::input::inverse::lemma_steady_in_a_row(
        first + second + content,
        fourth,
        delimiter,
        extract_context,
        depth,
    );
    crate::input::inverse::lemma_steady_in_a_row(
        first + second + content + fourth,
        fifth,
        delimiter,
        extract_context,
        depth,
    );
}

/// Tidy contents between sound notes and a technique are tidy.
pub proof fn lemma_decorated_is_tidy(content: Seq<char>, marks: Marks, slot: TokenPosition)
    requires
        crate::text::is_tidy(content),
    ensures
        crate::text::is_tidy(crate::input::print::decorated(content, marks, slot)),
{
    lemma_punctuation();
    let first = crate::input::print::opening_note_text(marks.opening_note);
    let second = crate::input::print::opening_technique_text(marks.technique, slot);
    let fourth = crate::input::print::closing_technique_text(marks.technique, slot);
    let fifth = crate::input::print::closing_note_text(marks.closing_note);
    let whole = crate::input::print::decorated(content, marks, slot);
    assert(whole == first + second + content + fourth + fifth);
    assert(whole.len() == first.len() + second.len() + content.len() + fourth.len() + fifth.len());
    // the first character
    if first.len() > 0 {
        assert(whole[0] == first[0]);
        assert(first[0] == '(');
    } else if second.len() > 0 {
        assert(whole[0] == second[0]);
        assert(second[0] == '<');
    } else {
        assert(whole[0] == content[0]);
    }
    // the last character
    let end = whole.len() - 1;
    if fifth.len() > 0 {
        assert(whole[end] == fifth[fifth.len() - 1]);
        assert(fifth[fifth.len() - 1] == ')');
    } else if fourth.len() > 0 {
        assert(whole[end] == fourth[fourth.len() - 1]);
        assert(fourth[fourth.len() - 1] == '>');
    } else {
        assert(whole[end] == content[content.len() - 1]);
    }
}

/// The tags of sound contexts, written out, are quiet.
pub proof fn lemma_tags_text_is_quiet<C: ContextLookup>(
    contexts: Seq<ContextView>,
    count: int,
    registry: &C,
)
    requires
        0 <= count <= contexts.len(),
        forall|i: int|
            0 <= i < contexts.len() ==> is_sound_context(#[trigger] contexts[i], registry),
    ensures
        crate::input::inverse::is_quiet(crate::input::print::tags_text(contexts, count)),
    decreases count,
{
    lemma_punctuation();
    if count > 0 {
        lemma_tags_text_is_quiet(contexts, count - 1, registry);
        assert(is_sound_context(contexts[count - 1], registry));
    }
}

/// A text without parentheses and brackets opens and closes none.
pub proof fn lemma_bracket_free_has_no_excess(text: Seq<char>)
    requires
        forall|i: int|
            0 <= i < text.len() ==> !crate::input::split::is_opener(#[trigger] text[i])
                && !crate::input::split::is_closer(text[i]),
    ensures
        crate::input::split::bracket_excess(text) == 0,
    decreases text.len(),
{
    if text.len() > 0 {
        assert forall|i: int| 0 <= i < text.drop_first().len() implies !crate::input::split::is_opener(
            #[trigger] text.drop_first()[i],
        ) && !crate::input::split::is_closer(text.drop_first()[i]) by {
            assert(text.drop_first()[i] == text[i + 1]);
        }
        assert(text.first() == text[0]);
        lemma_bracket_free_has_no_excess(text.drop_first());
    }
}

/// The text of a block of sound contexts is a context block, tidy, and
/// steady wherever the scan leaves context blocks in place.
pub proof fn lemma_context_text_is_block<C: ContextLookup>(
    contexts: Seq<ContextView>,
    registry: &C,
    delimiter: char,
    extract_context: bool,
    depth: int,
)
    requires
        forall|i: int|
            0 <= i < contexts.len() ==> is_sound_context(#[trigger] contexts[i], registry),
    ensures
        crate::input::inverse::is_block(crate::input::print::context_text(contexts)),
        crate::text::is_tidy(crate::input::print::context_text(contexts)),
        !(extract_context && depth == 0) ==> crate::input::inverse::is_steady(
            crate::input::print::context_text(contexts),
            delimiter,
            extract_context,
            depth,
        ),
{
    lemma_punctuation();
    let tags = crate::input::print::tags_text(contexts, contexts.len() as int);
    let text = seq!['{'] + tags + seq!['}'];
    lemma_tags_text_is_quiet(contexts, contexts.len() as int, registry);
    assert forall|i: int| 0 <= i < text.len() implies !crate::input::split::is_opener(
        #[trigger] text[i],
    ) && !crate::input::split::is_closer(text[i]) by {
        if 0 < i < text.len() - 1 {
            assert(text[i] == tags[i - 1]);
        }
    }
    assert(text.first() == '{');
    assert(text.last() == '}');
    assert forall|k: int| 0 < k < text.len() - 1 implies text[k] != '{' && text[k] != '}' by {
        assert(text[k] == tags[k - 1]);
    }
    lemma_bracket_free_has_no_excess(text);
    if !(extract_context && depth == 0) {
        crate::input::inverse::lemma_braces_are_steady(tags, delimiter, extract_context, depth);
    }
}

/// The text of a group without its notes and technique is tidy, and steady
/// where the text between its brackets is steady one level further in.
proof fn lemma_bracketed_is_steady(
    inner: Seq<char>,
    delimiter: char,
    extract_context: bool,
    depth: int,
)
    requires
        is_joint(delimiter),
        depth >= 0,
        crate::input::inverse::is_steady(inner, delimiter, extract_context, depth + 1),
    ensures
        crate::input::inverse::is_steady(
            "[ "@ + inner + " ]"@,
            delimiter,
            extract_context,
            depth,
        ),
        crate::text::is_tidy("[ "@ + inner + " ]"@),
{
    lemma_punctuation();
    let space = seq![' '];
    crate::input::inverse::lemma_flat_is_steady(space, delimiter, extract_context, depth + 1);
    crate::input::inverse::lemma_steady_in_a_row(
        space,
        inner,
        delimiter,
        extract_context,
        depth + 1,
    );
    crate::input::inverse::lemma_steady_in_a_row(
        space + inner,
        space,
        delimiter,
        extract_context,
        depth + 1,
    );
    crate::input::inverse::lemma_enclosed_is_steady(
        '[',
        space + inner + space,
        ']',
        delimiter,
        extract_context,
        depth,
    );
    let text = "[ "@ + inner + " ]"@;
    assert(text =~= seq!['['] + (space + inner + space) + seq![']']);
    assert(text.first() == '[');
    assert(text.last() == ']');
}

/// The text of a sound group without its notes and technique is steady and
/// tidy.
pub proof fn lemma_group_body_is_steady<C: ContextLookup>(
    entries: Seq<EntryView>,
    registry: &C,
    level: int,
    delimiter: char,
    extract_context: bool,
    depth: int,
)
    requires
        are_sound_entries(entries, registry),
        is_joint(delimiter),
        depth >= 0,
    ensures
        crate::input::inverse::is_steady(
            crate::input::print::group_body(entries, level),
            delimiter,
            extract_context,
            depth,
        ),
        crate::text::is_tidy(crate::input::print::group_body(entries, level)),
    decreases entries, 1int, entries.len(),
{
    lemma_entries_text_is_steady(
        entries,
        registry,
        level + 1,
        entries.len() as int,
        delimiter,
        extract_context,
        depth + 1,
    );
    lemma_bracketed_is_steady(
        crate::input::print::entries_text(entries, level + 1, entries.len() as int),
        delimiter,
        extract_context,
        depth,
    );
}

/// The text of a sound member of a combination is steady and tidy.
pub proof fn lemma_item_text_is_steady<C: ContextLookup>(
    item: CombinationItemView,
    registry: &C,
    level: int,
    position: IndexPosition,
    delimiter: char,
    extract_context: bool,
    depth: int,
)
    requires
        is_sound_item(item, registry),
        is_joint(delimiter),
        depth >= 0,
    ensures
        crate::input::inverse::is_steady(
            crate::input::print::item_text(item, level, position),
            delimiter,
            extract_context,
            depth,
        ),
        crate::text::is_tidy(crate::input::print::item_text(item, level, position)),
    decreases item, 0int, 0nat,
{
    match item {
        CombinationItemView::Symbol(symbol) => {
            lemma_symbol_is_plain(symbol);
            crate::input::inverse::lemma_flat_is_steady(symbol, delimiter, extract_context, depth);
        },
        CombinationItemView::Group(group) => {
            lemma_group_body_is_steady(
                group.entries,
                registry,
                level,
                delimiter,
                extract_context,
                depth,
            );
            let body = crate::input::print::group_body(group.entries, level);
            lemma_decorated_is_steady(
                body,
                group.marks,
                position.slot(),
                delimiter,
                extract_context,
                depth,
            );
            lemma_decorated_is_tidy(body, group.marks, position.slot());
        },
    }
}

/// The members of a sound combination, written out, are steady where the
/// scan does not cut at plus signs, and everywhere between brackets. They
/// are tidy.
pub proof fn lemma_items_text_is_steady<C: ContextLookup>(
    items: Seq<CombinationItemView>,
    registry: &C,
    level: int,
    count: int,
    delimiter: char,
    extract_context: bool,
    depth: int,
)
    requires
        forall|i: int| 0 <= i < items.len() ==> is_sound_item(#[trigger] items[i], registry),
        0 <= count <= items.len(),
        is_joint(delimiter),
        depth >= 0,
        depth != 0 || delimiter != '+',
    ensures
        crate::input::inverse::is_steady(
            crate::input::print::items_text(items, level, count),
            delimiter,
            extract_context,
            depth,
        ),
        count > 0 ==> crate::text::is_tidy(crate::input::print::items_text(items, level, count)),
    decreases items, 0int, count,
{
    lemma_punctuation();
    if count > 0 {
        lemma_items_text_is_steady(
            items,
            registry,
            level,
            count - 1,
            delimiter,
            extract_context,
            depth,
        );
        let before = crate::input::print::items_text(items, level, count - 1);
        let between = crate::input::print::plus(count - 1);
        let position = IndexPosition::at(level + 1, items.len() as int, count - 1);
        let last = crate::input::print::item_text(items[count - 1], level, position);
        lemma_item_text_is_steady(
            items[count - 1],
            registry,
            level,
            position,
            delimiter,
            extract_context,
            depth,
        );
        lemma_quiet_is_steady(between, delimiter, extract_context, depth);
        crate::input::inverse::lemma_steady_in_a_row(
            before,
            between,
            delimiter,
            extract_context,
            depth,
        );
        crate::input::inverse::lemma_steady_in_a_row(
            before + between,
            last,
            delimiter,
            extract_context,
            depth,
        );
        if count > 1 {
            lemma_tidy_in_a_row(before, between, last);
        } else {
            assert(before + between + last =~= last);
        }
    } else {
        crate::input::inverse::lemma_flat_is_steady(
            Seq::<char>::empty(),
            delimiter,
            extract_context,
            depth,
        );
    }
}

/// Whether an entry stands where the scan goes over its text: a context
/// block not where the scan hands context blocks out, a combination not
/// where the scan cuts at plus signs.
pub open spec fn stands_well(
    entry: EntryView,
    delimiter: char,
    extract_context: bool,
    depth: int,
) -> bool {
    match entry {
        EntryView::Context(_) => !(extract_context && depth == 0),
        EntryView::Combination(_) => depth != 0 || delimiter != '+',
        _ => true,
    }
}

/// The text of a sound entry is tidy, and steady where the entry stands
/// well.
pub proof fn lemma_entry_text_is_steady<C: ContextLookup>(
    entry: EntryView,
    registry: &C,
    level: int,
    position: IndexPosition,
    delimiter: char,
    extract_context: bool,
    depth: int,
)
    requires
        is_sound_entry(entry, registry),
        is_joint(delimiter),
        depth >= 0,
    ensures
        stands_well(entry, delimiter, extract_context, depth) ==> crate::input::inverse::is_steady(
            crate::input::print::entry_text(entry, level, position),
            delimiter,
            extract_context,
            depth,
        ),
        crate::text::is_tidy(crate::input::print::entry_text(entry, level, position)),
    decreases entry, 0int, 0nat,
{
    match entry {
        EntryView::Input(input) => {
            lemma_symbol_is_plain(input.symbol);
            crate::input::inverse::lemma_flat_is_steady(
                input.symbol,
                delimiter,
                extract_context,
                depth,
            );
            lemma_decorated_is_steady(
                input.symbol,
                input.marks,
                position.slot(),
                delimiter,
                extract_context,
                depth,
            );
            lemma_decorated_is_tidy(input.symbol, input.marks, position.slot());
        },
        EntryView::Combination(combination) => {
            let count = combination.items.len() as int;
            let content = crate::input::print::items_text(combination.items, level, count);
            if depth != 0 || delimiter != '+' {
                lemma_items_text_is_steady(
                    combination.items,
                    registry,
                    level,
                    count,
                    delimiter,
                    extract_context,
                    depth,
                );
                lemma_decorated_is_steady(
                    content,
                    combination.marks,
                    position.slot(),
                    delimiter,
                    extract_context,
                    depth,
                );
            } else {
                lemma_items_text_is_steady(
                    combination.items,
                    registry,
                    level,
                    count,
                    ',',
                    extract_context,
                    depth,
                );
            }
            lemma_decorated_is_tidy(content, combination.marks, position.slot());
        },
        EntryView::Group(group) => {
            lemma_group_body_is_steady(
                group.entries,
                registry,
                level,
                delimiter,
                extract_context,
                depth,
            );
            let body = crate::input::print::group_body(group.entries, level);
            lemma_decorated_is_steady(
                body,
                group.marks,
                position.slot(),
                delimiter,
                extract_context,
                depth,
            );
            lemma_decorated_is_tidy(body, group.marks, position.slot());
        },
        EntryView::Note(note) => {
            lemma_note_text_is_steady(note, delimiter, extract_context, depth);
        },
        EntryView::Context(contexts) => {
            lemma_context_text_is_block(contexts, registry, delimiter, extract_context, depth);
        },
    }
}

/// Between brackets, the entries of a sound sequence, written out, are
/// steady.
pub proof fn lemma_entries_text_is_steady<C: ContextLookup>(
    entries: Seq<EntryView>,
    registry: &C,
    level: int,
    count: int,
    delimiter: char,
    extract_context: bool,
    depth: int,
)
    requires
        are_sound_entries(entries, registry),
        0 <= count <= entries.len(),
        is_joint(delimiter),
        depth > 0,
    ensures
        crate::input::inverse::is_steady(
            crate::input::print::entries_text(entries, level, count),
            delimiter,
            extract_context,
            depth,
        ),
    decreases entries, 0int, count,
{
    lemma_punctuation();
    if count > 0 {
        lemma_entries_text_is_steady(
            entries,
            registry,
            level,
            count - 1,
            delimiter,
            extract_context,
            depth,
        );
        let before = crate::input::print::entries_text(entries, level, count - 1);
        let between = crate::input::print::separator(entries, count - 1);
        let position = IndexPosition::at(level, entries.len() as int, count - 1);
        let last = crate::input::print::entry_text(entries[count - 1], level, position);
        lemma_entry_text_is_steady(
            entries[count - 1],
            registry,
            level,
            position,
            delimiter,
            extract_context,
            depth,
        );
        lemma_quiet_is_steady(between, delimiter, extract_context, depth);
        crate::input::inverse::lemma_steady_in_a_row(
            before,
            between,
            delimiter,
            extract_context,
            depth,
        );
        crate::input::inverse::lemma_steady_in_a_row(
            before + between,
            last,
            delimiter,
            extract_context,
            depth,
        );
    } else {
        crate::input::inverse::lemma_flat_is_steady(
            Seq::<char>::empty(),
            delimiter,
            extract_context,
            depth,
        );
    }
}

/// The entries of a sound sequence, written out, are tidy.
pub proof fn lemma_entries_text_is_tidy<C: ContextLookup>(
    entries: Seq<EntryView>,
    registry: &C,
    level: int,
    count: int,
)
    requires
        are_sound_entries(entries, registry),
        0 < count <= entries.len(),
    ensures
        crate::text::is_tidy(crate::input::print::entries_text(entries, level, count)),
    decreases count,
{
    let before = crate::input::print::entries_text(entries, level, count - 1);
    let between = crate::input::print::separator(entries, count - 1);
    let position = IndexPosition::at(level, entries.len() as int, count - 1);
    let last = crate::input::print::entry_text(entries[count - 1], level, position);
    lemma_entry_text_is_steady(entries[count - 1], registry, level, position, ',', true, 1);
    if count > 1 {
        lemma_entries_text_is_tidy(entries, registry, level, count - 1);
        lemma_tidy_in_a_row(before, between, last);
    } else {
        assert(before + between + last =~= last);
    }
}

/// What stands between the brackets of a written group, trimmed, is the
/// text of its entries.
pub proof fn lemma_group_body_holds_entries<C: ContextLookup>(
    entries: Seq<EntryView>,
    registry: &C,
    level: int,
)
    requires
        are_sound_entries(entries, registry),
    ensures
        crate::text::trimmed(
            crate::text::without_ends(crate::input::print::group_body(entries, level)),
        ) == crate::input::print::entries_text(entries, level + 1, entries.len() as int),
        crate::input::print::group_body(entries, level).contains('['),
        crate::input::print::group_body(entries, level).contains(']'),
        crate::input::print::group_body(entries, level).first() == '[',
{
    lemma_punctuation();
    let inner = crate::input::print::entries_text(entries, level + 1, entries.len() as int);
    let body = crate::input::print::group_body(entries, level);
    let space = seq![' '];
    assert(body =~= seq!['['] + (space + inner + space) + seq![']']);
    assert(body.subrange(1, body.len() - 1) =~= space + inner + space);
    assert(body[0] == '[');
    assert(body[body.len() - 1] == ']');
    if entries.len() > 0 {
        lemma_entries_text_is_tidy(entries, registry, level + 1, entries.len() as int);
        crate::input::inverse::lemma_trim_padded(space, inner, space);
    } else {
        assert(space + inner + space =~= seq![' ', ' ']);
        crate::input::inverse::lemma_spaces_are_blank(space + inner + space);
        assert(inner =~= Seq::<char>::empty());
    }
}

/// The text of each entry of a sequence that stands at nesting depth
/// `level`.
pub open spec fn entry_texts(entries: Seq<EntryView>, level: int) -> Seq<Seq<char>> {
    Seq::new(
        entries.len(),
        |i: int|
            crate::input::print::entry_text(
                entries[i],
                level,
                IndexPosition::at(level, entries.len() as int, i),
            ),
    )
}

/// Which entries of a sequence are context blocks.
pub open spec fn context_flags(entries: Seq<EntryView>) -> Seq<bool> {
    Seq::new(entries.len(), |i: int| entries[i] is Context)
}

/// The text of each member of a combination that stands at nesting depth
/// `level`.
pub open spec fn item_texts(items: Seq<CombinationItemView>, level: int) -> Seq<Seq<char>> {
    Seq::new(
        items.len(),
        |i: int|
            crate::input::print::item_text(
                items[i],
                level,
                IndexPosition::at(level + 1, items.len() as int, i),
            ),
    )
}

/// The text of a sequence is the join of the texts of its entries.
pub proof fn lemma_entries_text_is_joined(entries: Seq<EntryView>, level: int, count: int)
    requires
        0 <= count <= entries.len(),
    ensures
        crate::input::print::entries_text(entries, level, count) == crate::input::inverse::joined(
            crate::input::inverse::comma_joint(),
            entry_texts(entries, level),
            context_flags(entries),
            count,
        ),
    decreases count,
{
    if count > 0 {
        lemma_punctuation();
        lemma_entries_text_is_joined(entries, level, count - 1);
        assert(crate::input::print::separator(entries, count - 1)
            =~= crate::input::inverse::gap(
            crate::input::inverse::comma_joint(),
            context_flags(entries),
            count - 1,
        ));
    }
}

/// The members of a combination, written out, are the join of their texts.
pub proof fn lemma_items_text_is_joined(items: Seq<CombinationItemView>, level: int, count: int)
    requires
        0 <= count <= items.len(),
    ensures
        crate::input::print::items_text(items, level, count) == crate::input::inverse::joined(
            crate::input::inverse::plus_joint(),
            item_texts(items, level),
            Seq::new(items.len(), |i: int| false),
            count,
        ),
    decreases count,
{
    if count > 0 {
        lemma_punctuation();
        lemma_items_text_is_joined(items, level, count - 1);
        assert(crate::input::print::plus(count - 1) =~= crate::input::inverse::gap(
            crate::input::inverse::plus_joint(),
            Seq::new(items.len(), |i: int| false),
            count - 1,
        ));
    }
}

/// Split at its commas, context blocks apart, the text of a sequence of
/// sound entries falls into the texts of the entries.
pub proof fn lemma_sequence_text_splits<C: ContextLookup>(
    entries: Seq<EntryView>,
    registry: &C,
    level: int,
)
    requires
        are_sound_entries(entries, registry),
    ensures
        crate::input::split::split_tokens(
            crate::input::print::entries_text(entries, level, entries.len() as int),
            ',',
            true,
        ) == Some(entry_texts(entries, level)),
{
    let joint = crate::input::inverse::comma_joint();
    let texts = entry_texts(entries, level);
    let flags = context_flags(entries);
    assert forall|i: int| 0 <= i < texts.len() implies if flags[i] {
        joint.extract_context && crate::input::inverse::is_block(#[trigger] texts[i])
    } else {
        crate::input::inverse::is_plain(texts[i], joint.delimiter, joint.extract_context)
    } by {
        let position = IndexPosition::at(level, entries.len() as int, i);
        lemma_entry_text_is_steady(entries[i], registry, level, position, ',', true, 0);
        match entries[i] {
            EntryView::Context(contexts) => {
                lemma_context_text_is_block(contexts, registry, ',', true, 0);
            },
            _ => {},
        }
    }
    lemma_entries_text_is_joined(entries, level, entries.len() as int);
    crate::input::inverse::lemma_split_joined(joint, texts, flags);
}

/// Split at its plus signs, the text of the members of a sound combination
/// falls into the texts of the members.
pub proof fn lemma_items_text_splits<C: ContextLookup>(
    items: Seq<CombinationItemView>,
    registry: &C,
    level: int,
)
    requires
        forall|i: int| 0 <= i < items.len() ==> is_sound_item(#[trigger] items[i], registry),
    ensures
        crate::input::split::split_tokens(
            crate::input::print::items_text(items, level, items.len() as int),
            '+',
            false,
        ) == Some(item_texts(items, level)),
{
    let joint = crate::input::inverse::plus_joint();
    let texts = item_texts(items, level);
    let flags = Seq::new(items.len(), |i: int| false);
    assert forall|i: int| 0 <= i < texts.len() implies if flags[i] {
        joint.extract_context && crate::input::inverse::is_block(#[trigger] texts[i])
    } else {
        crate::input::inverse::is_plain(texts[i], joint.delimiter, joint.extract_context)
    } by {
        let position = IndexPosition::at(level + 1, items.len() as int, i);
        lemma_item_text_is_steady(items[i], registry, level, position, '+', false, 0);
    }
    lemma_items_text_is_joined(items, level, items.len() as int);
    crate::input::inverse::lemma_split_joined(joint, texts, flags);
}

} // verus!
