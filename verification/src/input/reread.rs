//! Reading back what was written.
//!
//! The text of a sequence of sound entries falls into the texts of its
//! entries again. A note and a context block are then read without further
//! help, so a sequence of notes and context blocks is read back as it was
//! written. An input, a group and a combination are taken apart by their
//! shapes first; where the shapes take each of them apart into the parts
//! that it was written from, and each technique stands on the side on which
//! reading accepts it, the whole sequence is read back as it was written.

use vstd::prelude::*;
use crate::input::error::Failure;
use crate::input::parse::TokenPosition;
use crate::input::print::IndexPosition;
use crate::input::shape::PartsView;
use crate::input::{
    CombinationEntryView, CombinationItemView, ContextLookup, ContextView, EntryView,
    GroupEntryView, InputEntryView, Marks, Technique,
};

verus! {

/// Between an opening character and its closing one, with neither of them
/// in between, the nesting stays at one.
proof fn lemma_nesting_of_wrapped(inner: Seq<char>, open: char, close: char, count: int)
    requires
        forall|i: int| 0 <= i < inner.len() ==> inner[i] != open && inner[i] != close,
        open != close,
        0 < count <= inner.len() + 1,
    ensures
        crate::input::parse::nesting((seq![open] + inner + seq![close]).take(count), open, close)
            == 1,
    decreases count,
{
    let text = seq![open] + inner + seq![close];
    let head = text.take(count);
    assert(head.drop_last() =~= text.take(count - 1));
    assert(head.last() == text[count - 1]);
    if count > 1 {
        lemma_nesting_of_wrapped(inner, open, close, count - 1);
        assert(text[count - 1] == inner[count - 2]);
        assert(head.last() != open && head.last() != close);
    } else {
        assert(text.take(0) =~= Seq::<char>::empty());
        assert(crate::input::parse::nesting(text.take(0), open, close) == 0);
        assert(text[0] == open);
    }
    assert(crate::input::parse::nesting(head, open, close) == crate::input::parse::nesting(
        head.drop_last(),
        open,
        close,
    ) + if head.last() == open {
        1int
    } else if head.last() == close {
        -1int
    } else {
        0int
    });
}

/// A text between an opening character and its closing one, with neither of
/// them in between, is one span, and what it spans is that text.
proof fn lemma_wrapped_is_span(inner: Seq<char>, open: char, close: char)
    requires
        forall|i: int| 0 <= i < inner.len() ==> inner[i] != open && inner[i] != close,
        open != close,
    ensures
        crate::input::parse::is_span(seq![open] + inner + seq![close], open, close),
        crate::text::without_ends(seq![open] + inner + seq![close]) == inner,
        crate::input::parse::nesting(seq![open] + inner + seq![close], open, close) == 0,
{
    let text = seq![open] + inner + seq![close];
    assert forall|k: int| 0 < k < text.len() implies crate::input::parse::nesting(
        #[trigger] text.take(k),
        open,
        close,
    ) > 0 by {
        lemma_nesting_of_wrapped(inner, open, close, k);
    }
    assert(text.subrange(1, text.len() - 1) =~= inner);
    lemma_nesting_of_wrapped(inner, open, close, inner.len() as int + 1);
    assert(text.drop_last() =~= text.take(inner.len() as int + 1));
}

/// The text of a sound note is read as that note.
pub proof fn lemma_note_reads_back(note: Seq<char>)
    requires
        crate::input::sound::is_sound_note(note),
    ensures
        crate::input::parse::note_of("("@ + note + ")"@) == Some(note),
{
    crate::input::sound::lemma_punctuation();
    lemma_wrapped_is_span(note, '(', ')');
}

/// The tags of a context block, as they stand between its commas: each but
/// the first with a space before it.
pub open spec fn spaced_tags(contexts: Seq<ContextView>, count: int) -> Seq<Seq<char>> {
    Seq::new(
        count as nat,
        |i: int|
            if i == 0 {
                contexts[i].token()
            } else {
                seq![' '] + contexts[i].token()
            },
    )
}

/// Text without the separator, put behind a text, lengthens its last part.
proof fn lemma_fields_of_longer(text: Seq<char>, more: Seq<char>, separator: char)
    requires
        crate::input::inverse::is_free_of(more, separator),
    ensures
        crate::text::fields(text + more, separator) == crate::text::fields(
            text,
            separator,
        ).drop_last().push(crate::text::fields(text, separator).last() + more),
    decreases more.len(),
{
    crate::text::lemma_fields_not_empty(text, separator);
    let parts = crate::text::fields(text, separator);
    if more.len() == 0 {
        assert(text + more =~= text);
        assert(parts.last() + more =~= parts.last());
        assert(parts.drop_last().push(parts.last()) =~= parts);
    } else {
        let fewer = more.drop_last();
        assert(crate::input::inverse::is_free_of(fewer, separator)) by {
            assert forall|i: int| 0 <= i < fewer.len() implies #[trigger] fewer[i]
                != separator by {
                assert(fewer[i] == more[i]);
            }
        }
        assert(more.last() != separator) by {
            assert(more[more.len() - 1] == more.last());
        }
        lemma_fields_of_longer(text, fewer, separator);
        assert((text + more).drop_last() =~= text + fewer);
        assert((text + more).last() == more.last());
        let before = crate::text::fields(text + fewer, separator);
        assert(before.drop_last() =~= parts.drop_last());
        assert((parts.last() + fewer).push(more.last()) =~= parts.last() + more);
    }
}

/// The tags of a written context block are its parts between commas.
proof fn lemma_fields_of_tags(contexts: Seq<ContextView>, count: int)
    requires
        0 < count <= contexts.len(),
        forall|i: int|
            0 <= i < contexts.len() ==> crate::input::inverse::is_free_of(
                (#[trigger] contexts[i]).token(),
                ',',
            ),
    ensures
        crate::text::fields(crate::input::print::tags_text(contexts, count), ',') == spaced_tags(
            contexts,
            count,
        ),
    decreases count,
{
    crate::input::sound::lemma_punctuation();
    let tag = contexts[count - 1].token();
    assert(crate::input::inverse::is_free_of(tag, ','));
    if count == 1 {
        let nothing = Seq::<char>::empty();
        lemma_fields_of_longer(nothing, tag, ',');
        assert(nothing + tag =~= tag);
        assert(crate::text::fields(nothing, ',') =~= seq![nothing]);
        assert(crate::text::fields(tag, ',') =~= spaced_tags(contexts, 1));
    } else {
        lemma_fields_of_tags(contexts, count - 1);
        let before = crate::input::print::tags_text(contexts, count - 1);
        let parts = crate::text::fields(before, ',');
        let cut = before + seq![','];
        assert(cut.drop_last() =~= before);
        assert(cut.last() == ',');
        let spaced = seq![' '] + tag;
        assert(crate::input::inverse::is_free_of(spaced, ',')) by {
            assert forall|i: int| 0 <= i < spaced.len() implies #[trigger] spaced[i] != ',' by {
                if i > 0 {
                    assert(spaced[i] == tag[i - 1]);
                }
            }
        }
        lemma_fields_of_longer(cut, spaced, ',');
        assert(crate::input::print::tags_text(contexts, count) =~= cut + spaced);
        assert(Seq::<char>::empty() + spaced =~= spaced);
        assert(parts.push(Seq::empty()).drop_last() =~= parts);
        assert(parts.push(spaced) =~= spaced_tags(contexts, count));
    }
}

/// The tags of a written context block name its contexts.
proof fn lemma_spaced_tags_are_named<C: ContextLookup>(
    contexts: Seq<ContextView>,
    count: int,
    registry: &C,
)
    requires
        0 <= count <= contexts.len(),
        forall|i: int|
            0 <= i < contexts.len() ==> crate::input::sound::is_sound_context(
                #[trigger] contexts[i],
                registry,
            ),
    ensures
        crate::input::parse::contexts_named(spaced_tags(contexts, count), registry) == Ok::<
            Seq<ContextView>,
            Failure,
        >(contexts.take(count)),
    decreases count,
{
    if count == 0 {
        assert(contexts.take(0) =~= Seq::<ContextView>::empty());
    } else {
        lemma_spaced_tags_are_named(contexts, count - 1, registry);
        let tags = spaced_tags(contexts, count);
        assert(tags.drop_last() =~= spaced_tags(contexts, count - 1));
        let tag = contexts[count - 1].token();
        assert(crate::input::sound::is_sound_context(contexts[count - 1], registry));
        let nothing = Seq::<char>::empty();
        if count == 1 {
            assert(tags.last() =~= nothing + tag + nothing);
            crate::input::inverse::lemma_trim_padded(nothing, tag, nothing);
        } else {
            assert(tags.last() =~= seq![' '] + tag + nothing);
            crate::input::inverse::lemma_trim_padded(seq![' '], tag, nothing);
        }
        assert(contexts.take(count - 1).push(contexts[count - 1]) =~= contexts.take(count));
    }
}

/// The text of a block of sound contexts is read as those contexts.
pub proof fn lemma_contexts_read_back<C: ContextLookup>(contexts: Seq<ContextView>, registry: &C)
    requires
        crate::input::sound::are_sound_contexts(contexts, registry),
    ensures
        crate::input::parse::note_of(crate::input::print::context_text(contexts)) is None,
        crate::input::parse::context_of(crate::input::print::context_text(contexts), registry)
            == Ok::<Option<Seq<ContextView>>, Failure>(Some(contexts)),
{
    crate::input::sound::lemma_punctuation();
    let tags = crate::input::print::tags_text(contexts, contexts.len() as int);
    let text = seq!['{'] + tags + seq!['}'];
    crate::input::sound::lemma_tags_text_is_quiet(contexts, contexts.len() as int, registry);
    assert(text[0] == '{');
    assert forall|i: int| 0 <= i < contexts.len() implies crate::input::inverse::is_free_of(
        (#[trigger] contexts[i]).token(),
        ',',
    ) by {
        assert(crate::input::sound::is_sound_context(contexts[i], registry));
    }
    lemma_wrapped_is_span(tags, '{', '}');
    lemma_fields_of_tags(contexts, contexts.len() as int);
    lemma_spaced_tags_are_named(contexts, contexts.len() as int, registry);
    assert(contexts.take(contexts.len() as int) =~= contexts);
}

/// The name of a technique names that technique.
pub proof fn lemma_technique_reads_back(technique: Technique)
    ensures
        Technique::named(technique.name()) == Some(technique),
{
    reveal_strlit("charge");
    reveal_strlit("tap");
    reveal_strlit("quick");
    assert("charge"@.len() != "tap"@.len());
    assert("charge"@.len() != "quick"@.len());
    assert("tap"@.len() != "quick"@.len());
}

/// A technique marker names the technique whose name it holds.
pub proof fn lemma_marker_reads_back(technique: Technique)
    ensures
        crate::input::parse::technique_of(Some("<"@ + technique.name() + ">"@)) == Ok::<
            Option<Technique>,
            Failure,
        >(Some(technique)),
{
    crate::input::sound::lemma_punctuation();
    lemma_technique_reads_back(technique);
    let marker = "<"@ + technique.name() + ">"@;
    assert(marker.subrange(1, marker.len() - 1) =~= technique.name());
}

/// The tag of a predefined context names that context.
pub proof fn lemma_predefined_context_reads_back(context: ContextView)
    requires
        !(context is Custom),
    ensures
        ContextView::predefined(context.token()) == Some(context),
{
    reveal_strlit("air");
    reveal_strlit("ground");
    reveal_strlit("juggle");
    reveal_strlit("close");
    reveal_strlit("sweep");
    reveal_strlit("mid");
    reveal_strlit("far");
    assert("air"@[0] == 'a');
    assert("ground"@[0] == 'g');
    assert("juggle"@[0] == 'j');
    assert("close"@[0] == 'c');
    assert("sweep"@[0] == 's');
    assert("mid"@[0] == 'm');
    assert("far"@[0] == 'f');
}

/// Whether a technique stands where reading accepts it: on the side that
/// reading asks for, or nowhere.
pub open spec fn is_placed(
    technique: Option<Technique>,
    slot: TokenPosition,
    side: TokenPosition,
) -> bool {
    technique is None || slot == side
}

/// The marker of a technique: `<name>`.
pub open spec fn marker(technique: Technique) -> Seq<char> {
    "<"@ + technique.name() + ">"@
}

/// The parts from which an entry is written: its notes in parentheses, its
/// technique as a marker on the side `slot`, and its contents.
pub open spec fn written_parts(content: Seq<char>, marks: Marks, slot: TokenPosition) -> PartsView {
    PartsView {
        opening_note: match marks.opening_note {
            Some(note) => Some("("@ + note + ")"@),
            None => None,
        },
        opening_technique: match marks.technique {
            Some(technique) if slot == TokenPosition::OPENING => Some(marker(technique)),
            _ => None,
        },
        body: content,
        closing_technique: match marks.technique {
            Some(technique) if slot == TokenPosition::CLOSING => Some(marker(technique)),
            _ => None,
        },
        closing_note: match marks.closing_note {
            Some(note) => Some("("@ + note + ")"@),
            None => None,
        },
    }
}

/// From the parts that an entry was written from, reading settles the
/// technique and the notes that the entry has.
pub proof fn lemma_marks_read_back(
    content: Seq<char>,
    marks: Marks,
    slot: TokenPosition,
    side: TokenPosition,
)
    requires
        crate::input::sound::has_sound_remarks(marks),
        slot != TokenPosition::DISALLOWED,
        is_placed(marks.technique, slot, side),
    ensures
        crate::input::parse::marks_of_parts(written_parts(content, marks, slot), side) == Ok::<
            Marks,
            Failure,
        >(marks),
{
    crate::input::sound::lemma_punctuation();
    let parts = written_parts(content, marks, slot);
    match marks.technique {
        Some(technique) => {
            lemma_marker_reads_back(technique);
        },
        None => {},
    }
    match marks.opening_note {
        Some(note) => {
            let text = seq!['('] + note + seq![')'];
            assert(text.subrange(1, text.len() - 1) =~= note);
            crate::text::lemma_tidy_is_trimmed(note);
        },
        None => {},
    }
    match marks.closing_note {
        Some(note) => {
            let text = seq!['('] + note + seq![')'];
            assert(text.subrange(1, text.len() - 1) =~= note);
            crate::text::lemma_tidy_is_trimmed(note);
        },
        None => {},
    }
    let read = crate::input::parse::marks_of_parts(parts, side)->Ok_0;
    assert(read.technique == marks.technique);
    assert(read.opening_note == marks.opening_note);
    assert(read.closing_note == marks.closing_note);
}

/// Whether a text begins like neither a note that stands alone nor a
/// context block: not with a brace, and with a parenthesis only if that is
/// closed again before the end.
pub open spec fn begins_plainly(text: Seq<char>) -> bool {
    &&& text.len() > 0
    &&& text[0] != '{'
    &&& text[0] != '(' || exists|k: int|
        0 < k < text.len() && crate::input::parse::nesting(#[trigger] text.take(k), '(', ')') <= 0
}

/// A text that begins plainly is read neither as a note nor as a context
/// block.
proof fn lemma_plain_beginning_is_no_aside<C: ContextLookup>(text: Seq<char>, registry: &C)
    requires
        begins_plainly(text),
    ensures
        crate::input::parse::note_of(text) is None,
        crate::input::parse::context_of(text, registry) == Ok::<
            Option<Seq<ContextView>>,
            Failure,
        >(None),
{
    assert(text.first() == text[0]);
}

/// What begins plainly still does with more text behind it.
proof fn lemma_begins_plainly_with_more(text: Seq<char>, more: Seq<char>)
    requires
        begins_plainly(text),
    ensures
        begins_plainly(text + more),
{
    let whole = text + more;
    assert(whole[0] == text[0]);
    if text[0] == '(' {
        let k = choose|k: int|
            0 < k < text.len() && crate::input::parse::nesting(#[trigger] text.take(k), '(', ')')
                <= 0;
        assert(whole.take(k) =~= text.take(k));
    }
}

/// Contents that begin plainly still do between their notes and technique.
proof fn lemma_decorated_begins_plainly(content: Seq<char>, marks: Marks, slot: TokenPosition)
    requires
        begins_plainly(content),
        crate::input::sound::has_sound_remarks(marks),
    ensures
        begins_plainly(crate::input::print::decorated(content, marks, slot)),
{
    crate::input::sound::lemma_punctuation();
    let first = crate::input::print::opening_note_text(marks.opening_note);
    let second = crate::input::print::opening_technique_text(marks.technique, slot);
    let fourth = crate::input::print::closing_technique_text(marks.technique, slot);
    let fifth = crate::input::print::closing_note_text(marks.closing_note);
    let whole = crate::input::print::decorated(content, marks, slot);
    match marks.opening_note {
        Some(note) => {
            let wrapped = seq!['('] + note + seq![')'];
            lemma_wrapped_is_span(note, '(', ')');
            let k = wrapped.len() as int;
            assert(first =~= wrapped + seq![' ']);
            assert(whole.take(k) =~= wrapped);
            assert(whole[0] == '(');
        },
        None => {
            if second.len() > 0 {
                assert(whole[0] == second[0]);
                assert(second[0] == '<');
            } else {
                assert(whole =~= content + (fourth + fifth));
                lemma_begins_plainly_with_more(content, fourth + fifth);
            }
        },
    }
}

/// Contents that hold a character still do between their notes and
/// technique.
proof fn lemma_decorated_contains(content: Seq<char>, marks: Marks, slot: TokenPosition, c: char)
    requires
        content.contains(c),
    ensures
        crate::input::print::decorated(content, marks, slot).contains(c),
{
    let first = crate::input::print::opening_note_text(marks.opening_note);
    let second = crate::input::print::opening_technique_text(marks.technique, slot);
    let whole = crate::input::print::decorated(content, marks, slot);
    let i = choose|i: int| 0 <= i < content.len() && content[i] == c;
    assert(whole[first.len() + second.len() + i] == c);
}

/// Contents that are free of a bracket or of the plus sign still are
/// between sound notes and a technique.
proof fn lemma_decorated_is_free_of(content: Seq<char>, marks: Marks, slot: TokenPosition, c: char)
    requires
        crate::input::inverse::is_free_of(content, c),
        crate::input::sound::has_sound_remarks(marks),
        c == '[' || c == ']' || c == '+',
    ensures
        crate::input::inverse::is_free_of(crate::input::print::decorated(content, marks, slot), c),
{
    crate::input::sound::lemma_punctuation();
    let first = crate::input::print::opening_note_text(marks.opening_note);
    let second = crate::input::print::opening_technique_text(marks.technique, slot);
    let fourth = crate::input::print::closing_technique_text(marks.technique, slot);
    let fifth = crate::input::print::closing_note_text(marks.closing_note);
    let whole = crate::input::print::decorated(content, marks, slot);
    assert(crate::input::inverse::is_free_of(first, c)) by {
        match marks.opening_note {
            Some(note) => {
                assert forall|i: int| 0 <= i < first.len() implies #[trigger] first[i] != c by {
                    if 0 < i <= note.len() {
                        assert(first[i] == note[i - 1]);
                    }
                }
            },
            None => {},
        }
    }
    assert(crate::input::inverse::is_free_of(fifth, c)) by {
        match marks.closing_note {
            Some(note) => {
                assert forall|i: int| 0 <= i < fifth.len() implies #[trigger] fifth[i] != c by {
                    if 1 < i <= note.len() + 1 {
                        assert(fifth[i] == note[i - 2]);
                    }
                }
            },
            None => {},
        }
    }
    match marks.technique {
        Some(technique) => {
            crate::input::sound::lemma_technique_name_is_word(technique);
            let name = technique.name();
            assert forall|i: int| 0 <= i < second.len() implies #[trigger] second[i] != c by {
                if slot == TokenPosition::OPENING && 0 < i <= name.len() {
                    assert(second[i] == name[i - 1]);
                }
            }
            assert forall|i: int| 0 <= i < fourth.len() implies #[trigger] fourth[i] != c by {
                if slot == TokenPosition::CLOSING && 1 < i <= name.len() + 1 {
                    assert(fourth[i] == name[i - 2]);
                }
            }
        },
        None => {},
    }
    assert forall|i: int| 0 <= i < whole.len() implies #[trigger] whole[i] != c by {
        let a = first.len() as int;
        let b = a + second.len();
        let d = b + content.len();
        let e = d + fourth.len();
        if i < a {
            assert(whole[i] == first[i]);
        } else if i < b {
            assert(whole[i] == second[i - a]);
        } else if i < d {
            assert(whole[i] == content[i - b]);
        } else if i < e {
            assert(whole[i] == fourth[i - d]);
        } else {
            assert(whole[i] == fifth[i - e]);
        }
    }
}

/// A text that is free of a character does not hold it.
proof fn lemma_free_does_not_contain(text: Seq<char>, c: char)
    requires
        crate::input::inverse::is_free_of(text, c),
    ensures
        !text.contains(c),
{
    if text.contains(c) {
        let i = choose|i: int| 0 <= i < text.len() && text[i] == c;
        assert(text[i] != c);
    }
}

/// The text of a sound member of a combination begins plainly.
proof fn lemma_item_text_begins_plainly<C: ContextLookup>(
    item: CombinationItemView,
    registry: &C,
    level: int,
    position: IndexPosition,
)
    requires
        crate::input::sound::is_sound_item(item, registry),
    ensures
        begins_plainly(crate::input::print::item_text(item, level, position)),
{
    match item {
        CombinationItemView::Symbol(symbol) => {
            assert(crate::input::sound::is_symbol_char(symbol[0]));
        },
        CombinationItemView::Group(group) => {
            crate::input::sound::lemma_group_body_holds_entries(group.entries, registry, level);
            lemma_decorated_begins_plainly(
                crate::input::print::group_body(group.entries, level),
                group.marks,
                position.slot(),
            );
        },
    }
}

/// The members of a sound combination, written out, begin plainly, and
/// where there are two or more of them, a plus sign is among them.
proof fn lemma_items_text_begins_plainly<C: ContextLookup>(
    items: Seq<CombinationItemView>,
    registry: &C,
    level: int,
    count: int,
)
    requires
        forall|i: int|
            0 <= i < items.len() ==> crate::input::sound::is_sound_item(
                #[trigger] items[i],
                registry,
            ),
        0 < count <= items.len(),
    ensures
        begins_plainly(crate::input::print::items_text(items, level, count)),
        count > 1 ==> crate::input::print::items_text(items, level, count).contains('+'),
    decreases count,
{
    crate::input::sound::lemma_punctuation();
    let before = crate::input::print::items_text(items, level, count - 1);
    let between = crate::input::print::plus(count - 1);
    let position = IndexPosition::at(level + 1, items.len() as int, count - 1);
    let last = crate::input::print::item_text(items[count - 1], level, position);
    let whole = crate::input::print::items_text(items, level, count);
    if count == 1 {
        lemma_item_text_begins_plainly(items[0], registry, level, position);
        assert(whole =~= last);
    } else {
        lemma_items_text_begins_plainly(items, registry, level, count - 1);
        assert(whole =~= before + (between + last));
        lemma_begins_plainly_with_more(before, between + last);
        assert(whole[before.len() as int + 1] == '+');
    }
}

/// Whether the shape `pattern` takes a written entry apart into the parts
/// that it was written from.
pub open spec fn takes_apart(
    pattern: Seq<char>,
    content: Seq<char>,
    marks: Marks,
    slot: TokenPosition,
) -> bool {
    crate::input::shape::shape_parts(
        pattern,
        crate::input::print::decorated(content, marks, slot),
    ) == Some(written_parts(content, marks, slot))
}

/// Whether the shapes take a written group, and every entry in it, apart
/// into the parts that they were written from.
pub open spec fn group_is_taken_apart(group: GroupEntryView, level: int, slot: TokenPosition) -> bool
    decreases group,
{
    &&& takes_apart(
        crate::input::shape::GROUP_SHAPE@,
        crate::input::print::group_body(group.entries, level),
        group.marks,
        slot,
    )
    &&& forall|i: int|
        0 <= i < group.entries.len() ==> entry_is_taken_apart(
            #[trigger] group.entries[i],
            level + 1,
            IndexPosition::at(level + 1, group.entries.len() as int, i),
        )
}

/// Whether the shapes take a written member of a combination apart into the
/// parts that it was written from: a bare symbol into nothing but the
/// symbol.
pub open spec fn item_is_taken_apart(
    item: CombinationItemView,
    level: int,
    position: IndexPosition,
) -> bool
    decreases item,
{
    match item {
        CombinationItemView::Symbol(symbol) => crate::input::shape::shape_parts(
            crate::input::shape::INPUT_SHAPE@,
            symbol,
        ) == Some(written_parts(symbol, crate::input::no_marks(), TokenPosition::OPENING)),
        CombinationItemView::Group(group) => group_is_taken_apart(group, level, position.slot()),
    }
}

/// Whether the shapes take a written entry, and every entry in it, apart
/// into the parts that they were written from, and the shape of a group
/// does not fit a written combination.
pub open spec fn entry_is_taken_apart(entry: EntryView, level: int, position: IndexPosition) -> bool
    decreases entry,
{
    match entry {
        EntryView::Input(input) => takes_apart(
            crate::input::shape::INPUT_SHAPE@,
            input.symbol,
            input.marks,
            position.slot(),
        ),
        EntryView::Combination(combination) => {
            &&& crate::input::shape::shape_parts(
                crate::input::shape::GROUP_SHAPE@,
                crate::input::print::entry_text(entry, level, position),
            ) is None
            &&& takes_apart(
                crate::input::shape::COMBINATION_SHAPE@,
                crate::input::print::items_text(
                    combination.items,
                    level,
                    combination.items.len() as int,
                ),
                combination.marks,
                position.slot(),
            )
            &&& forall|i: int|
                0 <= i < combination.items.len() ==> item_is_taken_apart(
                    #[trigger] combination.items[i],
                    level,
                    IndexPosition::at(level + 1, combination.items.len() as int, i),
                )
        },
        EntryView::Group(group) => group_is_taken_apart(group, level, position.slot()),
        EntryView::Note(_) => true,
        EntryView::Context(_) => true,
    }
}

/// Whether a group stands within the ceiling of nesting, and its technique
/// and those of the entries in it where reading accepts them.
pub open spec fn group_is_well_placed(
    group: GroupEntryView,
    level: int,
    side: TokenPosition,
    slot: TokenPosition,
) -> bool
    decreases group,
{
    &&& is_placed(group.marks.technique, slot, side)
    &&& level + 1 < crate::input::parse::MAX_RECURSION
    &&& forall|i: int|
        0 <= i < group.entries.len() ==> entry_is_well_placed(
            #[trigger] group.entries[i],
            level + 1,
            side,
            IndexPosition::at(level + 1, group.entries.len() as int, i),
        )
}

/// Whether a member of a combination is well placed: a group with its
/// technique on the side that belongs to its place among the members.
pub open spec fn item_is_well_placed(
    item: CombinationItemView,
    level: int,
    index: int,
    position: IndexPosition,
) -> bool
    decreases item,
{
    match item {
        CombinationItemView::Symbol(_) => true,
        CombinationItemView::Group(group) => group_is_well_placed(
            group,
            level,
            crate::input::parse::item_position(index),
            position.slot(),
        ),
    }
}

/// Whether an entry is well placed: every group in it stands within the
/// ceiling of nesting, every technique where reading accepts it, and a
/// combination has two members or more. Below the outermost level an input
/// and a combination carry no technique; a group carries its technique on
/// the side that reading asks for, `side`.
pub open spec fn entry_is_well_placed(
    entry: EntryView,
    level: int,
    side: TokenPosition,
    position: IndexPosition,
) -> bool
    decreases entry,
{
    match entry {
        EntryView::Input(input) => is_placed(
            input.marks.technique,
            position.slot(),
            if level > 0 {
                TokenPosition::DISALLOWED
            } else {
                TokenPosition::OPENING
            },
        ),
        EntryView::Combination(combination) => {
            &&& is_placed(
                combination.marks.technique,
                position.slot(),
                if level == 0 {
                    TokenPosition::OPENING
                } else {
                    TokenPosition::DISALLOWED
                },
            )
            &&& combination.items.len() >= 2
            &&& forall|i: int|
                0 <= i < combination.items.len() ==> item_is_well_placed(
                    #[trigger] combination.items[i],
                    level,
                    i,
                    IndexPosition::at(level + 1, combination.items.len() as int, i),
                )
        },
        EntryView::Group(group) => group_is_well_placed(group, level, side, position.slot()),
        EntryView::Note(_) => true,
        EntryView::Context(_) => true,
    }
}

/// Whether every entry of a sequence that stands at depth `level` is sound
/// and well placed.
pub open spec fn are_well_placed<C: ContextLookup>(
    entries: Seq<EntryView>,
    registry: &C,
    level: int,
    side: TokenPosition,
) -> bool {
    forall|i: int|
        0 <= i < entries.len() ==> {
            &&& crate::input::sound::is_sound_entry(#[trigger] entries[i], registry)
            &&& entry_is_well_placed(
                entries[i],
                level,
                side,
                IndexPosition::at(level, entries.len() as int, i),
            )
        }
}

/// Whether the shapes take every entry of a written sequence apart into the
/// parts that it was written from.
pub open spec fn are_taken_apart(entries: Seq<EntryView>, level: int) -> bool {
    forall|i: int|
        0 <= i < entries.len() ==> entry_is_taken_apart(
            #[trigger] entries[i],
            level,
            IndexPosition::at(level, entries.len() as int, i),
        )
}

/// A written group is read as that group.
#[verifier::rlimit(40)]
proof fn lemma_group_reads_back<C: ContextLookup>(
    group: GroupEntryView,
    registry: &C,
    level: int,
    side: TokenPosition,
    slot: TokenPosition,
)
    requires
        crate::input::sound::is_sound_group(group, registry),
        group_is_well_placed(group, level, side, slot),
        group_is_taken_apart(group, level, slot),
        level >= 0,
        slot != TokenPosition::DISALLOWED,
    ensures
        crate::input::parse::group_of(
            crate::input::print::decorated(
                crate::input::print::group_body(group.entries, level),
                group.marks,
                slot,
            ),
            registry,
            level,
            side,
        ) == Ok::<Option<GroupEntryView>, Failure>(Some(group)),
        begins_plainly(
            crate::input::print::decorated(
                crate::input::print::group_body(group.entries, level),
                group.marks,
                slot,
            ),
        ),
    decreases group, 0int, 0nat,
{
    let entries = group.entries;
    let count = entries.len() as int;
    let body = crate::input::print::group_body(entries, level);
    let text = crate::input::print::decorated(body, group.marks, slot);
    assert(crate::input::sound::are_sound_entries(entries, registry));
    crate::input::sound::lemma_group_body_holds_entries(entries, registry, level);
    assert(body[0] == body.first());
    lemma_decorated_begins_plainly(body, group.marks, slot);
    lemma_decorated_contains(body, group.marks, slot, '[');
    lemma_decorated_contains(body, group.marks, slot, ']');
    lemma_marks_read_back(body, group.marks, slot, side);
    crate::input::sound::lemma_sequence_text_splits(entries, registry, level + 1);
    assert(are_well_placed(entries, registry, level + 1, side));
    assert(are_taken_apart(entries, level + 1));
    lemma_entries_read_in_turn(
        entries,
        crate::input::print::entries_text(entries, level + 1, count),
        registry,
        level + 1,
        side,
        count,
    );
    let texts = crate::input::sound::entry_texts(entries, level + 1);
    assert(texts.take(count) =~= texts);
    assert(entries.take(count) =~= entries);
    let parts = written_parts(body, group.marks, slot);
    assert(crate::input::parse::group_from(parts, registry, level, side) == Ok::<
        GroupEntryView,
        Failure,
    >(group));
}

/// The written members of a combination are read as those members, one
/// after the other.
proof fn lemma_items_read_in_turn<C: ContextLookup>(
    items: Seq<CombinationItemView>,
    enclosing: Seq<char>,
    registry: &C,
    level: int,
    count: int,
)
    requires
        forall|i: int|
            0 <= i < items.len() ==> {
                &&& crate::input::sound::is_sound_item(#[trigger] items[i], registry)
                &&& item_is_well_placed(
                    items[i],
                    level,
                    i,
                    IndexPosition::at(level + 1, items.len() as int, i),
                )
                &&& item_is_taken_apart(
                    items[i],
                    level,
                    IndexPosition::at(level + 1, items.len() as int, i),
                )
            },
        level >= 0,
        0 <= count <= items.len(),
    ensures
        crate::input::parse::items_of(
            crate::input::sound::item_texts(items, level).take(count),
            enclosing,
            registry,
            level,
        ) == Ok::<Seq<CombinationItemView>, Failure>(items.take(count)),
    decreases items, 0int, count,
{
    let texts = crate::input::sound::item_texts(items, level);
    if count == 0 {
        assert(items.take(0) =~= Seq::<CombinationItemView>::empty());
    } else {
        lemma_items_read_in_turn(items, enclosing, registry, level, count - 1);
        assert(texts.take(count).drop_last() =~= texts.take(count - 1));
        assert(texts.take(count).last() == texts[count - 1]);
        let index = count - 1;
        let position = IndexPosition::at(level + 1, items.len() as int, index);
        let item = items[index];
        assert(crate::input::sound::is_sound_item(item, registry));
        match item {
            CombinationItemView::Symbol(symbol) => {
                crate::input::sound::lemma_symbol_is_plain(symbol);
                lemma_free_does_not_contain(symbol, '[');
                lemma_marks_read_back(
                    symbol,
                    crate::input::no_marks(),
                    TokenPosition::OPENING,
                    TokenPosition::DISALLOWED,
                );
            },
            CombinationItemView::Group(group) => {
                lemma_group_reads_back(
                    group,
                    registry,
                    level,
                    crate::input::parse::item_position(index),
                    position.slot(),
                );
            },
        }
        assert(crate::input::parse::item_of(texts[index], index, enclosing, registry, level) == Ok::<
            CombinationItemView,
            Failure,
        >(item));
        assert(items.take(count - 1).push(items[count - 1]) =~= items.take(count));
    }
}

/// A written input is read as that input.
proof fn lemma_input_reads_back<C: ContextLookup>(
    input: InputEntryView,
    enclosing: Seq<char>,
    registry: &C,
    level: int,
    side: TokenPosition,
    position: IndexPosition,
)
    requires
        crate::input::sound::is_sound_entry(EntryView::Input(input), registry),
        entry_is_well_placed(EntryView::Input(input), level, side, position),
        entry_is_taken_apart(EntryView::Input(input), level, position),
        level >= 0,
    ensures
        crate::input::parse::entry_of(
            crate::input::print::entry_text(EntryView::Input(input), level, position),
            enclosing,
            registry,
            level,
            side,
        ) == Ok::<EntryView, Failure>(EntryView::Input(input)),
{
    let slot = position.slot();
    let text = crate::input::print::decorated(input.symbol, input.marks, slot);
    assert(crate::input::print::entry_text(EntryView::Input(input), level, position) == text);
    crate::input::sound::lemma_symbol_is_plain(input.symbol);
    assert(crate::input::sound::is_symbol_char(input.symbol[0]));
    lemma_decorated_begins_plainly(input.symbol, input.marks, slot);
    lemma_plain_beginning_is_no_aside(text, registry);
    lemma_decorated_is_free_of(input.symbol, input.marks, slot, '[');
    lemma_decorated_is_free_of(input.symbol, input.marks, slot, '+');
    lemma_free_does_not_contain(text, '[');
    lemma_free_does_not_contain(text, '+');
    lemma_marks_read_back(
        input.symbol,
        input.marks,
        slot,
        if level > 0 {
            TokenPosition::DISALLOWED
        } else {
            TokenPosition::OPENING
        },
    );
    assert(crate::input::parse::group_of(text, registry, level, side) == Ok::<
        Option<GroupEntryView>,
        Failure,
    >(None));
    assert(crate::input::parse::combination_of(text, registry, level) == Ok::<
        Option<CombinationEntryView>,
        Failure,
    >(None));
    assert(crate::input::parse::input_of(text, level > 0) == Ok::<
        Option<InputEntryView>,
        Failure,
    >(Some(input)));
}

/// A written combination is read as that combination.
#[verifier::rlimit(40)]
proof fn lemma_combination_reads_back<C: ContextLookup>(
    combination: CombinationEntryView,
    enclosing: Seq<char>,
    registry: &C,
    level: int,
    side: TokenPosition,
    position: IndexPosition,
)
    requires
        crate::input::sound::is_sound_entry(EntryView::Combination(combination), registry),
        entry_is_well_placed(EntryView::Combination(combination), level, side, position),
        entry_is_taken_apart(EntryView::Combination(combination), level, position),
        level >= 0,
    ensures
        crate::input::parse::entry_of(
            crate::input::print::entry_text(EntryView::Combination(combination), level, position),
            enclosing,
            registry,
            level,
            side,
        ) == Ok::<EntryView, Failure>(EntryView::Combination(combination)),
    decreases combination, 1int, 0nat,
{
    let slot = position.slot();
    let items = combination.items;
    let count = items.len() as int;
    let content = crate::input::print::items_text(items, level, count);
    let text = crate::input::print::decorated(content, combination.marks, slot);
    assert(crate::input::print::entry_text(EntryView::Combination(combination), level, position)
        == text);
    lemma_items_text_begins_plainly(items, registry, level, count);
    lemma_decorated_begins_plainly(content, combination.marks, slot);
    lemma_plain_beginning_is_no_aside(text, registry);
    lemma_decorated_contains(content, combination.marks, slot, '+');
    lemma_marks_read_back(
        content,
        combination.marks,
        slot,
        if level == 0 {
            TokenPosition::OPENING
        } else {
            TokenPosition::DISALLOWED
        },
    );
    crate::input::sound::lemma_items_text_splits(items, registry, level);
    lemma_items_read_in_turn(items, text, registry, level, count);
    let texts = crate::input::sound::item_texts(items, level);
    assert(texts.take(count) =~= texts);
    assert(items.take(count) =~= items);
    let parts = written_parts(content, combination.marks, slot);
    assert(crate::input::parse::combination_from(parts, text, registry, level) == Ok::<
        CombinationEntryView,
        Failure,
    >(combination));
    assert(crate::input::parse::group_of(text, registry, level, side) == Ok::<
        Option<GroupEntryView>,
        Failure,
    >(None));
    assert(crate::input::parse::combination_of(text, registry, level) == Ok::<
        Option<CombinationEntryView>,
        Failure,
    >(Some(combination)));
}

/// A written entry is read as that entry.
proof fn lemma_entry_reads_back<C: ContextLookup>(
    entry: EntryView,
    enclosing: Seq<char>,
    registry: &C,
    level: int,
    side: TokenPosition,
    position: IndexPosition,
)
    requires
        crate::input::sound::is_sound_entry(entry, registry),
        entry_is_well_placed(entry, level, side, position),
        entry_is_taken_apart(entry, level, position),
        level >= 0,
    ensures
        crate::input::parse::entry_of(
            crate::input::print::entry_text(entry, level, position),
            enclosing,
            registry,
            level,
            side,
        ) == Ok::<EntryView, Failure>(entry),
    decreases entry, 0int, 0nat,
{
    let text = crate::input::print::entry_text(entry, level, position);
    match entry {
        EntryView::Note(note) => {
            lemma_note_reads_back(note);
        },
        EntryView::Context(contexts) => {
            lemma_contexts_read_back(contexts, registry);
        },
        EntryView::Input(input) => {
            lemma_input_reads_back(input, enclosing, registry, level, side, position);
        },
        EntryView::Group(group) => {
            lemma_group_reads_back(group, registry, level, side, position.slot());
            lemma_plain_beginning_is_no_aside(text, registry);
        },
        EntryView::Combination(combination) => {
            lemma_combination_reads_back(combination, enclosing, registry, level, side, position);
        },
    }
}

/// The written entries of a sequence are read as those entries, one after
/// the other.
proof fn lemma_entries_read_in_turn<C: ContextLookup>(
    entries: Seq<EntryView>,
    enclosing: Seq<char>,
    registry: &C,
    level: int,
    side: TokenPosition,
    count: int,
)
    requires
        are_well_placed(entries, registry, level, side),
        are_taken_apart(entries, level),
        level >= 0,
        0 <= count <= entries.len(),
    ensures
        crate::input::parse::entries_of_tokens(
            crate::input::sound::entry_texts(entries, level).take(count),
            enclosing,
            registry,
            level,
            side,
        ) == Ok::<Seq<EntryView>, Failure>(entries.take(count)),
    decreases entries, 0int, count,
{
    let texts = crate::input::sound::entry_texts(entries, level);
    if count == 0 {
        assert(entries.take(0) =~= Seq::<EntryView>::empty());
    } else {
        lemma_entries_read_in_turn(entries, enclosing, registry, level, side, count - 1);
        assert(texts.take(count).drop_last() =~= texts.take(count - 1));
        assert(texts.take(count).last() == texts[count - 1]);
        lemma_entry_reads_back(
            entries[count - 1],
            enclosing,
            registry,
            level,
            side,
            IndexPosition::at(level, entries.len() as int, count - 1),
        );
        assert(entries.take(count - 1).push(entries[count - 1]) =~= entries.take(count));
    }
}

/// Reading gives back what was written, as far as the shapes do: where
/// every entry of a sequence is sound and well placed, and the shapes take
/// each written input, group and combination apart into the parts that it
/// was written from, the text of the sequence is read as that sequence.
pub proof fn lemma_sequence_reads_back<C: ContextLookup>(entries: Seq<EntryView>, registry: &C)
    requires
        are_well_placed(entries, registry, 0, TokenPosition::OPENING),
    ensures
        are_taken_apart(entries, 0) ==> crate::input::Sequence::parsed(
            crate::input::Sequence::printed(entries),
            registry,
        ) == Ok::<Seq<EntryView>, Failure>(entries),
{
    if are_taken_apart(entries, 0) {
        let count = entries.len() as int;
        let texts = crate::input::sound::entry_texts(entries, 0);
        assert(crate::input::sound::are_sound_entries(entries, registry));
        crate::input::sound::lemma_sequence_text_splits(entries, registry, 0);
        lemma_entries_read_in_turn(
            entries,
            crate::input::Sequence::printed(entries),
            registry,
            0,
            TokenPosition::OPENING,
            count,
        );
        assert(texts.take(count) =~= texts);
        assert(entries.take(count) =~= entries);
    }
}

/// The canonical text is stable, as far as the shapes go: where a text is
/// read as a sequence whose entries are sound and well placed, and the
/// shapes take each of them apart as it is written, writing the sequence,
/// reading that and writing it again gives the same text as writing it
/// once.
pub proof fn lemma_canonical_text_is_stable<C: ContextLookup>(
    text: Seq<char>,
    entries: Seq<EntryView>,
    registry: &C,
)
    requires
        crate::input::Sequence::parsed(text, registry) == Ok::<Seq<EntryView>, Failure>(entries),
        are_well_placed(entries, registry, 0, TokenPosition::OPENING),
    ensures
        are_taken_apart(entries, 0) ==> match crate::input::Sequence::parsed(
            crate::input::Sequence::printed(entries),
            registry,
        ) {
            Ok(again) => crate::input::Sequence::printed(again) == crate::input::Sequence::printed(
                entries,
            ),
            Err(_) => false,
        },
{
    lemma_sequence_reads_back(entries, registry);
}

/// Whether an entry is a note that stands alone or a context block.
pub open spec fn is_aside(entry: EntryView) -> bool {
    entry is Note || entry is Context
}

/// Reading gives back what was written, for a sequence of notes and context
/// blocks: where every entry is a sound note or a block of sound contexts,
/// the text of the sequence is read as that sequence.
pub proof fn lemma_asides_read_back<C: ContextLookup>(entries: Seq<EntryView>, registry: &C)
    requires
        forall|i: int|
            0 <= i < entries.len() ==> is_aside(#[trigger] entries[i])
                && crate::input::sound::is_sound_entry(entries[i], registry),
    ensures
        crate::input::Sequence::parsed(crate::input::Sequence::printed(entries), registry) == Ok::<
            Seq<EntryView>,
            Failure,
        >(entries),
{
    assert(are_well_placed(entries, registry, 0, TokenPosition::OPENING)) by {
        assert forall|i: int| 0 <= i < entries.len() implies {
            &&& crate::input::sound::is_sound_entry(#[trigger] entries[i], registry)
            &&& entry_is_well_placed(
                entries[i],
                0,
                TokenPosition::OPENING,
                IndexPosition::at(0, entries.len() as int, i),
            )
        } by {
            assert(is_aside(entries[i]));
        }
    }
    assert(are_taken_apart(entries, 0)) by {
        assert forall|i: int| 0 <= i < entries.len() implies entry_is_taken_apart(
            #[trigger] entries[i],
            0,
            IndexPosition::at(0, entries.len() as int, i),
        ) by {
            assert(is_aside(entries[i]));
        }
    }
    lemma_sequence_reads_back(entries, registry);
}

} // verus!
