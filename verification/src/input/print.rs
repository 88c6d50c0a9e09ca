//! Writing a sequence as notation text.
//!
//! The text is canonical: entries are joined by a comma and a space, the
//! members of a combination by a plus sign between spaces, and a context
//! block stands between its neighbours with a space and no comma.

use vstd::prelude::*;
use vstd::string::*;
use crate::input::parse::TokenPosition;
use crate::input::{
    CombinationItem, CombinationItemView, Context, ContextTrait, ContextView, Entry, EntryTrait,
    EntryView, Marks, Technique,
};

verus! {

/// The place of an entry among its siblings.
#[derive(PartialEq, Eq, Copy, Clone, Debug, Structural)]
pub enum IndexPosition {
    Only,
    First,
    Middle,
    Last,
}

impl IndexPosition {
    /// The place of entry `index` among `num_siblings` entries at nesting
    /// depth `depth`. At the outermost level every entry counts as the only
    /// one.
    pub open spec fn at(depth: int, num_siblings: int, index: int) -> IndexPosition {
        if num_siblings == 0 || depth == 0 {
            IndexPosition::Only
        } else if index == 0 {
            IndexPosition::First
        } else if index == num_siblings - 1 {
            IndexPosition::Last
        } else {
            IndexPosition::Middle
        }
    }

    /// The side on which an entry in this place carries its technique:
    /// behind it where it is the first of several, before it elsewhere.
    pub open spec fn slot(self) -> TokenPosition {
        match self {
            IndexPosition::First => TokenPosition::CLOSING,
            _ => TokenPosition::OPENING,
        }
    }

    /// The place of entry `index` among `num_siblings` entries at nesting
    /// depth `depth`.
    pub fn determine(depth: i32, num_siblings: usize, index: usize) -> (position: Self)
        ensures
            position == Self::at(depth as int, num_siblings as int, index as int),
    {
        if num_siblings == 0 || depth == 0 {
            IndexPosition::Only
        } else if index == 0 {
            IndexPosition::First
        } else if index == num_siblings - 1 {
            IndexPosition::Last
        } else {
            IndexPosition::Middle
        }
    }

    /// The side on which an entry in this place carries its technique.
    pub fn technique_position(&self) -> (position: TokenPosition)
        ensures
            position == self.slot(),
    {
        match self {
            IndexPosition::First => TokenPosition::CLOSING,
            _ => TokenPosition::OPENING,
        }
    }
}

/// A note before an entry: `(note) `.
pub open spec fn opening_note_text(note: Option<Seq<char>>) -> Seq<char> {
    match note {
        Some(note) => "("@ + note + ") "@,
        None => Seq::empty(),
    }
}

/// A note behind an entry: ` (note)`.
pub open spec fn closing_note_text(note: Option<Seq<char>>) -> Seq<char> {
    match note {
        Some(note) => " ("@ + note + ")"@,
        None => Seq::empty(),
    }
}

/// A technique before an entry: `<name> `, where the slot is the opening one.
pub open spec fn opening_technique_text(technique: Option<Technique>, slot: TokenPosition) -> Seq<
    char,
> {
    match technique {
        Some(technique) if slot == TokenPosition::OPENING => "<"@ + technique.name() + "> "@,
        _ => Seq::empty(),
    }
}

/// A technique behind an entry: ` <name>`, where the slot is the closing one.
pub open spec fn closing_technique_text(technique: Option<Technique>, slot: TokenPosition) -> Seq<
    char,
> {
    match technique {
        Some(technique) if slot == TokenPosition::CLOSING => " <"@ + technique.name() + ">"@,
        _ => Seq::empty(),
    }
}

/// `content` between its notes and its technique: the notes outermost, the
/// technique on the side that `slot` names.
pub open spec fn decorated(content: Seq<char>, marks: Marks, slot: TokenPosition) -> Seq<char> {
    opening_note_text(marks.opening_note) + opening_technique_text(marks.technique, slot) + content
        + closing_technique_text(marks.technique, slot) + closing_note_text(marks.closing_note)
}

/// The first `count` tags of a context block, with a comma and a space
/// between them.
pub open spec fn tags_text(contexts: Seq<ContextView>, count: int) -> Seq<char>
    decreases count,
{
    if count <= 0 {
        Seq::empty()
    } else if count == 1 {
        contexts[0].token()
    } else {
        tags_text(contexts, count - 1) + ", "@ + contexts[count - 1].token()
    }
}

/// A context block: `{tag, tag}`.
pub open spec fn context_text(contexts: Seq<ContextView>) -> Seq<char> {
    "{"@ + tags_text(contexts, contexts.len() as int) + "}"@
}

/// What stands between entry `index` and the entry before it: nothing
/// before the first entry, a space next to a context block, a comma and a
/// space elsewhere.
pub open spec fn separator(entries: Seq<EntryView>, index: int) -> Seq<char> {
    if index <= 0 {
        Seq::empty()
    } else if entries[index - 1] is Context || entries[index] is Context {
        " "@
    } else {
        ", "@
    }
}

/// What stands between member `index` of a combination and the member
/// before it.
pub open spec fn plus(index: int) -> Seq<char> {
    if index <= 0 {
        Seq::empty()
    } else {
        " + "@
    }
}

/// A group without its notes and technique: `[ entries ]`, for a group that
/// stands at nesting depth `depth`.
pub open spec fn group_body(entries: Seq<EntryView>, depth: int) -> Seq<char>
    decreases entries, 1int, entries.len(),
{
    "[ "@ + entries_text(entries, depth + 1, entries.len() as int) + " ]"@
}

/// A member of a combination that stands at nesting depth `depth`.
pub open spec fn item_text(item: CombinationItemView, depth: int, position: IndexPosition) -> Seq<
    char,
>
    decreases item, 0int, 0nat,
{
    match item {
        CombinationItemView::Symbol(symbol) => symbol,
        CombinationItemView::Group(group) => decorated(
            group_body(group.entries, depth),
            group.marks,
            position.slot(),
        ),
    }
}

/// The first `count` members of a combination that stands at nesting depth
/// `depth`.
pub open spec fn items_text(items: Seq<CombinationItemView>, depth: int, count: int) -> Seq<char>
    decreases items, 0int, count,
{
    if count <= 0 || count > items.len() {
        Seq::empty()
    } else {
        items_text(items, depth, count - 1) + plus(count - 1) + item_text(
            items[count - 1],
            depth,
            IndexPosition::at(depth + 1, items.len() as int, count - 1),
        )
    }
}

/// An entry that stands at nesting depth `depth`, in the place `position`
/// among its siblings.
pub open spec fn entry_text(entry: EntryView, depth: int, position: IndexPosition) -> Seq<char>
    decreases entry, 0int, 0nat,
{
    match entry {
        EntryView::Note(note) => "("@ + note + ")"@,
        EntryView::Input(input) => decorated(input.symbol, input.marks, position.slot()),
        EntryView::Combination(combination) => decorated(
            items_text(combination.items, depth, combination.items.len() as int),
            combination.marks,
            position.slot(),
        ),
        EntryView::Group(group) => decorated(
            group_body(group.entries, depth),
            group.marks,
            position.slot(),
        ),
        EntryView::Context(contexts) => context_text(contexts),
    }
}

/// The first `count` entries of a sequence that stands at nesting depth
/// `depth`.
pub open spec fn entries_text(entries: Seq<EntryView>, depth: int, count: int) -> Seq<char>
    decreases entries, 0int, count,
{
    if count <= 0 || count > entries.len() {
        Seq::empty()
    } else {
        entries_text(entries, depth, count - 1) + separator(entries, count - 1) + entry_text(
            entries[count - 1],
            depth,
            IndexPosition::at(depth, entries.len() as int, count - 1),
        )
    }
}

/// The canonical text of a sequence.
pub open spec fn sequence_text(entries: Seq<EntryView>) -> Seq<char> {
    entries_text(entries, 0, entries.len() as int)
}

/// Below the outermost level the text of a group does not depend on how
/// deep it stands.
proof fn lemma_group_body_at_any_depth(entries: Seq<EntryView>, one: int, other: int)
    requires
        one >= 0,
        other >= 0,
    ensures
        group_body(entries, one) == group_body(entries, other),
    decreases entries, 1int, entries.len(),
{
    lemma_entries_text_at_any_depth(entries, one + 1, other + 1, entries.len() as int);
}

/// The text of a member of a combination does not depend on how deep the
/// combination stands.
proof fn lemma_item_text_at_any_depth(
    item: CombinationItemView,
    one: int,
    other: int,
    position: IndexPosition,
)
    requires
        one >= 0,
        other >= 0,
    ensures
        item_text(item, one, position) == item_text(item, other, position),
    decreases item, 0int, 0nat,
{
    match item {
        CombinationItemView::Symbol(symbol) => {},
        CombinationItemView::Group(group) => {
            lemma_group_body_at_any_depth(group.entries, one, other);
        },
    }
}

/// The text of the members of a combination does not depend on how deep
/// the combination stands.
proof fn lemma_items_text_at_any_depth(
    items: Seq<CombinationItemView>,
    one: int,
    other: int,
    count: int,
)
    requires
        one >= 0,
        other >= 0,
    ensures
        items_text(items, one, count) == items_text(items, other, count),
    decreases items, 0int, count,
{
    if 0 < count <= items.len() {
        lemma_items_text_at_any_depth(items, one, other, count - 1);
        lemma_item_text_at_any_depth(
            items[count - 1],
            one,
            other,
            IndexPosition::at(one + 1, items.len() as int, count - 1),
        );
    }
}

/// The text of an entry depends on its place among its siblings, not on
/// how deep it stands.
proof fn lemma_entry_text_at_any_depth(
    entry: EntryView,
    one: int,
    other: int,
    position: IndexPosition,
)
    requires
        one >= 0,
        other >= 0,
    ensures
        entry_text(entry, one, position) == entry_text(entry, other, position),
    decreases entry, 0int, 0nat,
{
    match entry {
        EntryView::Combination(combination) => {
            lemma_items_text_at_any_depth(
                combination.items,
                one,
                other,
                combination.items.len() as int,
            );
        },
        EntryView::Group(group) => {
            lemma_group_body_at_any_depth(group.entries, one, other);
        },
        _ => {},
    }
}

/// Below the outermost level the text of a sequence does not depend on how
/// deep it stands.
pub proof fn lemma_entries_text_at_any_depth(
    entries: Seq<EntryView>,
    one: int,
    other: int,
    count: int,
)
    requires
        one > 0,
        other > 0,
    ensures
        entries_text(entries, one, count) == entries_text(entries, other, count),
    decreases entries, 0int, count,
{
    if 0 < count <= entries.len() {
        lemma_entries_text_at_any_depth(entries, one, other, count - 1);
        lemma_entry_text_at_any_depth(
            entries[count - 1],
            one,
            other,
            IndexPosition::at(one, entries.len() as int, count - 1),
        );
    }
}

/// Whether an entry is a context block.
fn is_context(entry: &Entry) -> (context: bool)
    ensures
        context == (entry@ is Context),
{
    match entry {
        Entry::Context(_) => true,
        _ => false,
    }
}

/// The depth one level further in. It stops at the largest number: so far
/// below the outermost level the depth changes nothing.
fn one_deeper(depth: i32) -> (deeper: i32)
    ensures
        deeper == depth + 1 || (deeper == depth && depth == i32::MAX),
{
    if depth < i32::MAX {
        depth + 1
    } else {
        depth
    }
}

/// Puts `contents` between the notes and the technique of `entry`.
pub fn entry_trait_to_string<E: EntryTrait>(
    entry: &E,
    index_position: IndexPosition,
    contents: &str,
) -> (text: String)
    ensures
        text@ == decorated(contents@, entry.marks(), index_position.slot()),
{
    let technique_position = index_position.technique_position();
    let mut out = String::new();
    match entry.opening_note() {
        Some(note) => {
            out.append("(");
            out.append(note);
            out.append(") ");
        },
        None => {},
    }
    assert(out@ =~= opening_note_text(entry.marks().opening_note));
    match (technique_position, entry.technique()) {
        (TokenPosition::OPENING, Some(technique)) => {
            out.append("<");
            out.append(technique.as_str());
            out.append("> ");
        },
        _ => {},
    }
    out.append(contents);
    match (technique_position, entry.technique()) {
        (TokenPosition::CLOSING, Some(technique)) => {
            out.append(" <");
            out.append(technique.as_str());
            out.append(">");
        },
        _ => {},
    }
    match entry.closing_note() {
        Some(note) => {
            out.append(" (");
            out.append(note);
            out.append(")");
        },
        None => {},
    }
    assert(out@ =~= decorated(contents@, entry.marks(), index_position.slot()));
    out
}

/// Writes a context block.
pub fn contexts_to_string(contexts: &Vec<Context>) -> (text: String)
    ensures
        text@ == context_text(crate::input::contexts_view(contexts@)),
{
    let ghost views = crate::input::contexts_view(contexts@);
    let mut out = String::new();
    out.append("{");
    let mut i: usize = 0;
    while i < contexts.len()
        invariant
            i <= contexts.len(),
            views == crate::input::contexts_view(contexts@),
            out@ == "{"@ + tags_text(views, i as int),
        decreases contexts.len() - i,
    {
        let ghost before = out@;
        if i > 0 {
            out.append(", ");
        }
        out.append(contexts[i].token());
        assert(out@ =~= "{"@ + tags_text(views, i + 1));
        i += 1;
    }
    out.append("}");
    out
}

/// Writes a group without its notes and technique, for a group that stands
/// at nesting depth `depth`.
fn group_to_string(entries: &Vec<Entry>, depth: i32) -> (text: String)
    ensures
        text@ == group_body(crate::input::entries_view(entries@), depth as int),
    decreases entries, 1int, entries.len(),
{
    let deeper = one_deeper(depth);
    let entries_str = entries_to_string(entries, deeper);
    proof {
        if deeper != depth + 1 {
            lemma_entries_text_at_any_depth(
                crate::input::entries_view(entries@),
                deeper as int,
                depth + 1,
                entries.len() as int,
            );
        }
    }
    let mut out = String::new();
    out.append("[ ");
    out.append(entries_str.as_str());
    out.append(" ]");
    assert(out@ =~= group_body(crate::input::entries_view(entries@), depth as int));
    out
}

/// Writes the members of a combination that stands at nesting depth `depth`.
fn items_to_string(items: &Vec<CombinationItem>, depth: i32) -> (text: String)
    ensures
        text@ == items_text(crate::input::items_view(items@), depth as int, items.len() as int),
    decreases items, 0int, items.len(),
{
    let ghost views = crate::input::items_view(items@);
    let mut out = String::new();
    let mut i: usize = 0;
    while i < items.len()
        invariant
            i <= items.len(),
            views == crate::input::items_view(items@),
            out@ == items_text(views, depth as int, i as int),
        decreases items.len() - i,
    {
        let ghost position = IndexPosition::at(depth + 1, items.len() as int, i as int);
        if i > 0 {
            out.append(" + ");
        }
        let ghost joined = out@;
        assert(views[i as int] == items[i as int]@);
        match &items[i] {
            CombinationItem::Symbol(symbol) => {
                out.append(symbol.as_str());
            },
            CombinationItem::Group(group_entry) => {
                let deeper = one_deeper(depth);
                let index_position = IndexPosition::determine(deeper, items.len(), i);
                let body = group_to_string(&group_entry.entries, depth);
                let result = entry_trait_to_string(group_entry, index_position, body.as_str());
                proof {
                    crate::input::lemma_group_view(*group_entry);
                }
                out.append(result.as_str());
            },
        }
        assert(out@ == joined + item_text(views[i as int], depth as int, position));
        assert(out@ =~= items_text(views, depth as int, i + 1));
        i += 1;
    }
    out
}

/// Writes one entry that stands at nesting depth `depth`, in the place
/// `index_position` among its siblings.
pub fn entry_to_string(entry: &Entry, depth: i32, index_position: IndexPosition) -> (text: String)
    ensures
        text@ == entry_text(entry@, depth as int, index_position),
    decreases entry, 0int, 0nat,
{
    match entry {
        Entry::Note(note) => {
            let mut out = String::new();
            out.append("(");
            out.append(note.as_str());
            out.append(")");
            assert(out@ =~= "("@ + note@ + ")"@);
            out
        },
        Entry::Input(input_entry) => entry_trait_to_string(
            input_entry,
            index_position,
            input_entry.symbol.as_str(),
        ),
        Entry::Combination(combo_entry) => {
            let contents = items_to_string(&combo_entry.items, depth);
            proof {
                crate::input::lemma_combination_view(*combo_entry);
            }
            entry_trait_to_string(combo_entry, index_position, contents.as_str())
        },
        Entry::Group(group_entry) => {
            let contents = group_to_string(&group_entry.entries, depth);
            proof {
                crate::input::lemma_group_view(*group_entry);
            }
            entry_trait_to_string(group_entry, index_position, contents.as_str())
        },
        Entry::Context(contexts) => contexts_to_string(contexts),
    }
}

/// Writes the entries of a sequence that stands at nesting depth `depth`.
pub fn entries_to_string(entries: &Vec<Entry>, depth: i32) -> (text: String)
    ensures
        text@ == entries_text(
            crate::input::entries_view(entries@),
            depth as int,
            entries.len() as int,
        ),
    decreases entries, 0int, entries.len(),
{
    let ghost views = crate::input::entries_view(entries@);
    let num_entries = entries.len();
    let mut out = String::new();
    let mut i: usize = 0;
    while i < num_entries
        invariant
            i <= num_entries,
            num_entries == entries.len(),
            views == crate::input::entries_view(entries@),
            out@ == entries_text(views, depth as int, i as int),
        decreases num_entries - i,
    {
        if i > 0 {
            if is_context(&entries[i - 1]) || is_context(&entries[i]) {
                out.append(" ");
            } else {
                out.append(", ");
            }
        }
        let token_str = entry_to_string(
            &entries[i],
            depth,
            IndexPosition::determine(depth, num_entries, i),
        );
        out.append(token_str.as_str());
        assert(out@ =~= entries_text(views, depth as int, i + 1));
        i += 1;
    }
    out
}

} // verus!
