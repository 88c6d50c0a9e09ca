//! The input notation: symbols, the entries of a sequence, and the records
//! of a game that name them.

use vstd::prelude::*;
use crate::input::error::{Failure, ParseError, ParseErrorKind};
use crate::text::same_text;

pub mod error;
pub mod inverse;
pub mod parse;
pub mod print;
pub mod reread;
pub mod shape;
pub mod sound;
pub mod split;

verus! {

/// A short alphanumeric token that stands for one input, such as `QCF`.
pub type Symbol = String;

/// The text of an optional string.
pub open spec fn text_of<T: View<V = Seq<char>>>(text: Option<T>) -> Option<Seq<char>> {
    match text {
        Some(text) => Some(text@),
        None => None,
    }
}

/// How an entry is to be executed.
#[derive(Clone, Copy, Debug, PartialEq, Eq, Structural)]
pub enum Technique {
    /// Hold the input for a short while.
    Charge,
    /// Press the input repeatedly.
    Tap,
    /// Press the inputs in quick succession.
    Quick,
}

impl Technique {
    /// The name of the technique, as it stands between angle brackets.
    pub open spec fn name(self) -> Seq<char> {
        match self {
            Technique::Charge => "charge"@,
            Technique::Tap => "tap"@,
            Technique::Quick => "quick"@,
        }
    }

    /// The technique that `name` names, if any.
    pub open spec fn named(name: Seq<char>) -> Option<Technique> {
        if name == "charge"@ {
            Some(Technique::Charge)
        } else if name == "tap"@ {
            Some(Technique::Tap)
        } else if name == "quick"@ {
            Some(Technique::Quick)
        } else {
            None
        }
    }

    /// The refusal of a name that names no technique.
    pub open spec fn unknown(name: Seq<char>) -> Failure {
        crate::input::error::failure(ParseErrorKind::UnknownTechnique, name)
    }

    /// The name of the technique, as it stands between angle brackets.
    pub fn as_str(&self) -> (name: &'static str)
        ensures
            name@ == self.name(),
    {
        match self {
            Technique::Charge => "charge",
            Technique::Tap => "tap",
            Technique::Quick => "quick",
        }
    }

    /// The name of the technique, as a string of its own.
    pub fn to_string(&self) -> (name: String)
        ensures
            name@ == self.name(),
    {
        self.as_str().to_owned()
    }

    /// Reads the name of a technique. Names are matched exactly.
    pub fn from_str(name: &str) -> (result: Result<Technique, ParseError>)
        ensures
            match result {
                Ok(technique) => Technique::named(name@) == Some(technique),
                Err(error) => Technique::named(name@) is None && error@ == Technique::unknown(
                    name@,
                ),
            },
    {
        if same_text(name, "charge") {
            Ok(Technique::Charge)
        } else if same_text(name, "tap") {
            Ok(Technique::Tap)
        } else if same_text(name, "quick") {
            Ok(Technique::Quick)
        } else {
            Err(ParseError::new(ParseErrorKind::UnknownTechnique, name.to_owned()))
        }
    }
}

/// Anything that is written as a context tag.
pub trait ContextTrait {
    /// The tag as it stands between braces.
    spec fn spec_token(&self) -> Seq<char>;

    fn token(&self) -> (token: &str)
        ensures
            token@ == self.spec_token(),
    ;
}

/// A situation in which a move applies.
#[derive(Debug, PartialEq)]
pub enum Context {
    Air,
    Ground,
    Juggle,
    Close,
    Sweep,
    Mid,
    Far,
    /// A tag that a game defines for itself.
    Custom(String),
}

/// A context, as contracts see it.
pub enum ContextView {
    Air,
    Ground,
    Juggle,
    Close,
    Sweep,
    Mid,
    Far,
    Custom(Seq<char>),
}

impl ContextView {
    /// The tag as it stands between braces.
    pub open spec fn token(self) -> Seq<char> {
        match self {
            ContextView::Air => "air"@,
            ContextView::Ground => "ground"@,
            ContextView::Juggle => "juggle"@,
            ContextView::Close => "close"@,
            ContextView::Sweep => "sweep"@,
            ContextView::Mid => "mid"@,
            ContextView::Far => "far"@,
            ContextView::Custom(token) => token,
        }
    }

    /// The predefined context that `token` names, if any.
    pub open spec fn predefined(token: Seq<char>) -> Option<ContextView> {
        if token == "air"@ {
            Some(ContextView::Air)
        } else if token == "ground"@ {
            Some(ContextView::Ground)
        } else if token == "juggle"@ {
            Some(ContextView::Juggle)
        } else if token == "close"@ {
            Some(ContextView::Close)
        } else if token == "sweep"@ {
            Some(ContextView::Sweep)
        } else if token == "mid"@ {
            Some(ContextView::Mid)
        } else if token == "far"@ {
            Some(ContextView::Far)
        } else {
            None
        }
    }

    /// The refusal of a tag that names no context.
    pub open spec fn unknown(token: Seq<char>) -> Failure {
        crate::input::error::failure(ParseErrorKind::UnknownContext, token)
    }
}

impl View for Context {
    type V = ContextView;

    open spec fn view(&self) -> ContextView {
        match self {
            Context::Air => ContextView::Air,
            Context::Ground => ContextView::Ground,
            Context::Juggle => ContextView::Juggle,
            Context::Close => ContextView::Close,
            Context::Sweep => ContextView::Sweep,
            Context::Mid => ContextView::Mid,
            Context::Far => ContextView::Far,
            Context::Custom(token) => ContextView::Custom(token@),
        }
    }
}

impl Clone for Context {
    fn clone(&self) -> (copy: Self)
        ensures
            copy@ == self@,
    {
        match self {
            Context::Air => Context::Air,
            Context::Ground => Context::Ground,
            Context::Juggle => Context::Juggle,
            Context::Close => Context::Close,
            Context::Sweep => Context::Sweep,
            Context::Mid => Context::Mid,
            Context::Far => Context::Far,
            Context::Custom(token) => Context::Custom(token.clone()),
        }
    }
}

impl ContextTrait for Context {
    open spec fn spec_token(&self) -> Seq<char> {
        self@.token()
    }

    fn token(&self) -> (token: &str) {
        match self {
            Context::Air => "air",
            Context::Ground => "ground",
            Context::Juggle => "juggle",
            Context::Close => "close",
            Context::Sweep => "sweep",
            Context::Mid => "mid",
            Context::Far => "far",
            Context::Custom(custom) => custom.as_str(),
        }
    }
}

impl Context {
    /// Reads the tag of a predefined context. Tags are matched exactly.
    pub fn try_from(token: &str) -> (result: Result<Context, ParseError>)
        ensures
            match result {
                Ok(context) => ContextView::predefined(token@) == Some(context@),
                Err(error) => ContextView::predefined(token@) is None && error@
                    == ContextView::unknown(token@),
            },
    {
        if same_text(token, "air") {
            Ok(Context::Air)
        } else if same_text(token, "ground") {
            Ok(Context::Ground)
        } else if same_text(token, "juggle") {
            Ok(Context::Juggle)
        } else if same_text(token, "close") {
            Ok(Context::Close)
        } else if same_text(token, "sweep") {
            Ok(Context::Sweep)
        } else if same_text(token, "mid") {
            Ok(Context::Mid)
        } else if same_text(token, "far") {
            Ok(Context::Far)
        } else {
            Err(ParseError::new(ParseErrorKind::UnknownContext, token.to_owned()))
        }
    }

    /// The tag of the context, as a string of its own.
    pub fn to_string(&self) -> (token: String)
        ensures
            token@ == self@.token(),
    {
        self.token().to_owned()
    }
}

/// The views of a list of contexts.
pub open spec fn contexts_view(contexts: Seq<Context>) -> Seq<ContextView> {
    Seq::new(contexts.len(), |i: int| contexts[i]@)
}

/// What an input, a combination and a group have in common: an optional
/// technique and optional notes before and after.
pub struct Marks {
    pub technique: Option<Technique>,
    pub opening_note: Option<Seq<char>>,
    pub closing_note: Option<Seq<char>>,
}

/// An input, as contracts see it.
pub struct InputEntryView {
    pub symbol: Seq<char>,
    pub marks: Marks,
}

/// A combination, as contracts see it.
pub struct CombinationEntryView {
    pub items: Seq<CombinationItemView>,
    pub marks: Marks,
}

/// A group, as contracts see it.
pub struct GroupEntryView {
    pub entries: Seq<EntryView>,
    pub marks: Marks,
}

/// A member of a combination, as contracts see it.
pub enum CombinationItemView {
    Symbol(Seq<char>),
    Group(GroupEntryView),
}

/// An entry of a sequence, as contracts see it.
pub enum EntryView {
    Input(InputEntryView),
    Combination(CombinationEntryView),
    Group(GroupEntryView),
    Note(Seq<char>),
    Context(Seq<ContextView>),
}

/// Access to what an input, a combination and a group have in common.
pub trait EntryTrait {
    /// The technique and the notes of the entry.
    spec fn marks(&self) -> Marks;

    fn opening_note(&self) -> (note: Option<&str>)
        ensures
            text_of(note) == self.marks().opening_note,
    ;

    fn closing_note(&self) -> (note: Option<&str>)
        ensures
            text_of(note) == self.marks().closing_note,
    ;

    fn technique(&self) -> (technique: Option<Technique>)
        ensures
            technique == self.marks().technique,
    ;
}

/// The technique and the notes of an entry, as contracts see them.
pub open spec fn marks_of(
    technique: Option<Technique>,
    opening_note: Option<String>,
    closing_note: Option<String>,
) -> Marks {
    Marks {
        technique,
        opening_note: text_of(opening_note),
        closing_note: text_of(closing_note),
    }
}

/// Neither a technique nor a note.
pub open spec fn no_marks() -> Marks {
    Marks { technique: None, opening_note: None, closing_note: None }
}

/// The note as a string slice, if there is one.
fn as_text(note: &Option<String>) -> (text: Option<&str>)
    ensures
        text_of(text) == text_of(*note),
{
    match note {
        Some(note) => Some(note.as_str()),
        None => None,
    }
}

/// A single input: `A`, `<charge> B`, `(late) C`.
#[derive(Debug, PartialEq)]
pub struct InputEntry {
    pub symbol: Symbol,
    pub technique: Option<Technique>,
    pub opening_note: Option<String>,
    pub closing_note: Option<String>,
}

/// A member of a combination.
#[derive(Debug, PartialEq)]
pub enum CombinationItem {
    Symbol(Symbol),
    Group(GroupEntry),
}

/// Inputs that are pressed together: `A + B`, `D + [ P1, P2 ]`.
#[derive(Debug, PartialEq)]
pub struct CombinationEntry {
    pub items: Vec<CombinationItem>,
    pub technique: Option<Technique>,
    pub opening_note: Option<String>,
    pub closing_note: Option<String>,
}

/// A sequence within a sequence: `[ B, C, D ]`.
#[derive(Debug, PartialEq)]
pub struct GroupEntry {
    pub entries: Vec<Entry>,
    pub technique: Option<Technique>,
    pub opening_note: Option<String>,
    pub closing_note: Option<String>,
}

/// One element of a sequence.
#[derive(Debug, PartialEq)]
pub enum Entry {
    /// A single input: A, B, C, D
    Input(InputEntry),
    /// A combination of inputs: A + B, C + D, E + F + G
    Combination(CombinationEntry),
    /// A group of entries: A, [ B, C, D ] <tap>, E
    Group(GroupEntry),
    /// A note that stands alone: A, (something of interest), B
    Note(String),
    /// The situations in which what follows applies.
    Context(Vec<Context>),
}

impl View for InputEntry {
    type V = InputEntryView;

    open spec fn view(&self) -> InputEntryView {
        InputEntryView {
            symbol: self.symbol@,
            marks: marks_of(self.technique, self.opening_note, self.closing_note),
        }
    }
}

impl View for GroupEntry {
    type V = GroupEntryView;

    open spec fn view(&self) -> GroupEntryView
        decreases self,
    {
        GroupEntryView {
            entries: Seq::new(
                self.entries.len() as nat,
                |i: int|
                    if 0 <= i < self.entries.len() {
                        self.entries[i]@
                    } else {
                        arbitrary()
                    },
            ),
            marks: marks_of(self.technique, self.opening_note, self.closing_note),
        }
    }
}

impl View for CombinationItem {
    type V = CombinationItemView;

    open spec fn view(&self) -> CombinationItemView
        decreases self,
    {
        match self {
            CombinationItem::Symbol(symbol) => CombinationItemView::Symbol(symbol@),
            CombinationItem::Group(group) => CombinationItemView::Group(group@),
        }
    }
}

impl View for CombinationEntry {
    type V = CombinationEntryView;

    open spec fn view(&self) -> CombinationEntryView
        decreases self,
    {
        CombinationEntryView {
            items: Seq::new(
                self.items.len() as nat,
                |i: int|
                    if 0 <= i < self.items.len() {
                        self.items[i]@
                    } else {
                        arbitrary()
                    },
            ),
            marks: marks_of(self.technique, self.opening_note, self.closing_note),
        }
    }
}

impl View for Entry {
    type V = EntryView;

    open spec fn view(&self) -> EntryView
        decreases self,
    {
        match self {
            Entry::Input(input) => EntryView::Input(input@),
            Entry::Combination(combination) => EntryView::Combination(combination@),
            Entry::Group(group) => EntryView::Group(group@),
            Entry::Note(note) => EntryView::Note(note@),
            Entry::Context(contexts) => EntryView::Context(contexts_view(contexts@)),
        }
    }
}

/// The views of a list of entries.
pub open spec fn entries_view(entries: Seq<Entry>) -> Seq<EntryView> {
    Seq::new(entries.len(), |i: int| entries[i]@)
}

/// The views of the members of a combination.
pub open spec fn items_view(items: Seq<CombinationItem>) -> Seq<CombinationItemView> {
    Seq::new(items.len(), |i: int| items[i]@)
}

/// The view of a group holds the views of its entries.
pub proof fn lemma_group_view(group: GroupEntry)
    ensures
        group@ == (GroupEntryView {
            entries: entries_view(group.entries@),
            marks: marks_of(group.technique, group.opening_note, group.closing_note),
        }),
{
    reveal_with_fuel(<GroupEntry as View>::view, 2);
    assert(group@.entries =~= entries_view(group.entries@));
}

/// The view of a combination holds the views of its members.
pub proof fn lemma_combination_view(combination: CombinationEntry)
    ensures
        combination@ == (CombinationEntryView {
            items: items_view(combination.items@),
            marks: marks_of(
                combination.technique,
                combination.opening_note,
                combination.closing_note,
            ),
        }),
{
    reveal_with_fuel(<CombinationEntry as View>::view, 2);
    assert(combination@.items =~= items_view(combination.items@));
}

impl InputEntry {
    pub fn new(
        symbol: Symbol,
        technique: Option<Technique>,
        opening_note: Option<String>,
        closing_note: Option<String>,
    ) -> (entry: Self)
        ensures
            entry == (InputEntry { symbol, technique, opening_note, closing_note }),
    {
        Self { symbol, technique, opening_note, closing_note }
    }

    /// The entry that holds `symbol` and nothing else.
    pub fn for_symbol(symbol: &str) -> (entry: Entry)
        ensures
            entry@ == EntryView::Input(InputEntryView { symbol: symbol@, marks: no_marks() }),
    {
        Entry::Input(
            Self { symbol: symbol.to_owned(), technique: None, opening_note: None, closing_note: None },
        )
    }

    pub fn symbol(&self) -> (symbol: &Symbol)
        ensures
            symbol == self.symbol,
    {
        &self.symbol
    }
}

impl EntryTrait for InputEntry {
    open spec fn marks(&self) -> Marks {
        self@.marks
    }

    fn opening_note(&self) -> (note: Option<&str>) {
        as_text(&self.opening_note)
    }

    fn closing_note(&self) -> (note: Option<&str>) {
        as_text(&self.closing_note)
    }

    fn technique(&self) -> (technique: Option<Technique>) {
        self.technique
    }
}

impl CombinationEntry {
    pub fn new(
        items: Vec<CombinationItem>,
        technique: Option<Technique>,
        opening_note: Option<String>,
        closing_note: Option<String>,
    ) -> (entry: Self)
        ensures
            entry == (CombinationEntry { items, technique, opening_note, closing_note }),
    {
        Self { items, technique, opening_note, closing_note }
    }

    /// The combination of bare symbols, in the order given.
    pub fn for_symbols(symbols: Vec<&str>) -> (entry: Entry)
        ensures
            entry@ == EntryView::Combination(
                CombinationEntryView {
                    items: Seq::new(
                        symbols.len() as nat,
                        |i: int| CombinationItemView::Symbol(symbols[i]@),
                    ),
                    marks: no_marks(),
                },
            ),
    {
        let mut items: Vec<CombinationItem> = Vec::new();
        let mut i: usize = 0;
        while i < symbols.len()
            invariant
                i <= symbols.len(),
                items.len() == i,
                forall|k: int|
                    0 <= k < i ==> (#[trigger] items[k])@ == CombinationItemView::Symbol(
                        symbols[k]@,
                    ),
            decreases symbols.len() - i,
        {
            items.push(CombinationItem::Symbol(symbols[i].to_owned()));
            i += 1;
        }
        let combination = Self { items, technique: None, opening_note: None, closing_note: None };
        proof {
            assert(combination@.items =~= Seq::new(
                symbols.len() as nat,
                |i: int| CombinationItemView::Symbol(symbols[i]@),
            ));
        }
        Entry::Combination(combination)
    }

    pub fn items(&self) -> (items: &[CombinationItem])
        ensures
            items@ == self.items@,
    {
        self.items.as_slice()
    }
}

impl EntryTrait for CombinationEntry {
    open spec fn marks(&self) -> Marks {
        self@.marks
    }

    fn opening_note(&self) -> (note: Option<&str>) {
        as_text(&self.opening_note)
    }

    fn closing_note(&self) -> (note: Option<&str>) {
        as_text(&self.closing_note)
    }

    fn technique(&self) -> (technique: Option<Technique>) {
        self.technique
    }
}

impl GroupEntry {
    pub fn new(
        entries: Vec<Entry>,
        technique: Option<Technique>,
        opening_note: Option<String>,
        closing_note: Option<String>,
    ) -> (entry: Self)
        ensures
            entry == (GroupEntry { entries, technique, opening_note, closing_note }),
    {
        Self { entries, technique, opening_note, closing_note }
    }

    pub fn entries(&self) -> (entries: &[Entry])
        ensures
            entries@ == self.entries@,
    {
        self.entries.as_slice()
    }
}

impl EntryTrait for GroupEntry {
    open spec fn marks(&self) -> Marks {
        self@.marks
    }

    fn opening_note(&self) -> (note: Option<&str>) {
        as_text(&self.opening_note)
    }

    fn closing_note(&self) -> (note: Option<&str>) {
        as_text(&self.closing_note)
    }

    fn technique(&self) -> (technique: Option<Technique>) {
        self.technique
    }
}

impl EntryTrait for Entry {
    /// A note and a list of contexts carry neither technique nor notes.
    open spec fn marks(&self) -> Marks {
        match self {
            Entry::Input(input) => input@.marks,
            Entry::Combination(combination) => combination@.marks,
            Entry::Group(group) => group@.marks,
            Entry::Note(_) => no_marks(),
            Entry::Context(_) => no_marks(),
        }
    }

    fn opening_note(&self) -> (note: Option<&str>) {
        match self {
            Entry::Input(input) => input.opening_note(),
            Entry::Combination(combination) => combination.opening_note(),
            Entry::Group(group) => group.opening_note(),
            Entry::Note(_) => None,
            Entry::Context(_) => None,
        }
    }

    fn closing_note(&self) -> (note: Option<&str>) {
        match self {
            Entry::Input(input) => input.closing_note(),
            Entry::Combination(combination) => combination.closing_note(),
            Entry::Group(group) => group.closing_note(),
            Entry::Note(_) => None,
            Entry::Context(_) => None,
        }
    }

    fn technique(&self) -> (technique: Option<Technique>) {
        match self {
            Entry::Input(input) => input.technique(),
            Entry::Combination(combination) => combination.technique(),
            Entry::Group(group) => group.technique(),
            Entry::Note(_) => None,
            Entry::Context(_) => None,
        }
    }
}

/// The entries of a move, in the order in which they are performed.
#[derive(Debug, PartialEq)]
pub struct Sequence {
    entries: Vec<Entry>,
}

impl View for Sequence {
    type V = Seq<EntryView>;

    closed spec fn view(&self) -> Seq<EntryView> {
        entries_view(self.entries@)
    }
}

impl Sequence {
    pub fn new(entries: Vec<Entry>) -> (sequence: Self)
        ensures
            sequence@ == entries_view(entries@),
    {
        Self { entries }
    }

    /// The entries that `text` denotes, or the reason for which it is
    /// refused. Custom context tags are those that `registry` knows.
    pub open spec fn parsed<C: ContextLookup>(text: Seq<char>, registry: &C) -> Result<
        Seq<EntryView>,
        Failure,
    > {
        crate::input::parse::entries_of(
            text,
            registry,
            0,
            crate::input::parse::TokenPosition::OPENING,
        )
    }

    /// The canonical text of a sequence.
    pub open spec fn printed(entries: Seq<EntryView>) -> Seq<char> {
        crate::input::print::sequence_text(entries)
    }

    /// Reads a sequence from its notation. A text that is not balanced is
    /// refused as malformed.
    pub fn parse<S: SymbolicLookup, C: ContextLookup>(
        input_string: &str,
        symbol_lookup: &S,
        context_lookup: &C,
    ) -> (result: Result<Self, ParseError>)
        ensures
            crate::input::parse::outcome(result) == Self::parsed(input_string@, context_lookup),
            !crate::input::split::is_balanced(input_string@) ==> crate::input::parse::outcome(
                result,
            ) == Err::<Seq<EntryView>, Failure>(crate::input::split::malformed(input_string@)),
    {
        proof {
            if !crate::input::split::is_balanced(input_string@) {
                crate::input::split::lemma_unbalanced_text_is_malformed(input_string@, ',', true);
            }
        }
        match crate::input::parse::parse_entries(
            input_string,
            symbol_lookup,
            context_lookup,
            0,
            crate::input::parse::TokenPosition::default(),
        ) {
            Ok(entries) => Ok(Sequence::new(entries)),
            Err(error) => Err(error),
        }
    }

    /// Writes the sequence in its canonical notation.
    pub fn to_string(&self) -> (text: String)
        ensures
            text@ == Self::printed(self@),
    {
        crate::input::print::entries_to_string(&self.entries, 0)
    }
}

/// The texts of a list of strings.
pub open spec fn strings_view(strings: Seq<String>) -> Seq<Seq<char>> {
    Seq::new(strings.len(), |i: int| strings[i]@)
}

/// A primitive input of a game: a button or a direction.
#[derive(Debug, PartialEq)]
pub struct Input {
    name: String,
    symbol: Symbol,
}

/// An input of a game, as contracts see it.
pub struct InputView {
    pub name: Seq<char>,
    pub symbol: Seq<char>,
}

impl View for Input {
    type V = InputView;

    closed spec fn view(&self) -> InputView {
        InputView { name: self.name@, symbol: self.symbol@ }
    }
}

impl Clone for Input {
    fn clone(&self) -> (copy: Self)
        ensures
            copy@ == self@,
    {
        Self { name: self.name.clone(), symbol: self.symbol.clone() }
    }
}

impl Input {
    pub fn new(name: String, symbol: Symbol) -> (input: Self)
        ensures
            input@ == (InputView { name: name@, symbol: symbol@ }),
    {
        Self { name, symbol }
    }

    pub fn name(&self) -> (name: &str)
        ensures
            name@ == self@.name,
    {
        self.name.as_str()
    }

    pub fn symbol(&self) -> (symbol: &Symbol)
        ensures
            symbol@ == self@.symbol,
    {
        &self.symbol
    }
}

/// A symbol that stands for any one of several inputs.
#[derive(Debug, PartialEq)]
pub struct Wildcard {
    name: String,
    symbol: Symbol,
    matches: Vec<Symbol>,
}

/// A wildcard, as contracts see it.
pub struct WildcardView {
    pub name: Seq<char>,
    pub symbol: Seq<char>,
    pub matches: Seq<Seq<char>>,
}

impl View for Wildcard {
    type V = WildcardView;

    closed spec fn view(&self) -> WildcardView {
        WildcardView {
            name: self.name@,
            symbol: self.symbol@,
            matches: strings_view(self.matches@),
        }
    }
}

impl Wildcard {
    pub fn new(name: String, symbol: Symbol, matches: Vec<Symbol>) -> (wildcard: Self)
        ensures
            wildcard@ == (WildcardView {
                name: name@,
                symbol: symbol@,
                matches: strings_view(matches@),
            }),
    {
        Self { name, symbol, matches }
    }

    pub fn name(&self) -> (name: &str)
        ensures
            name@ == self@.name,
    {
        self.name.as_str()
    }

    pub fn symbol(&self) -> (symbol: &Symbol)
        ensures
            symbol@ == self@.symbol,
    {
        &self.symbol
    }

    pub fn matches(&self) -> (matches: &[Symbol])
        ensures
            strings_view(matches@) == self@.matches,
    {
        self.matches.as_slice()
    }
}

/// A kind of move, such as a normal or a special move.
#[derive(Debug, PartialEq)]
pub struct Category {
    ordinal: u8,
    name: String,
}

/// A category, as contracts see it.
pub struct CategoryView {
    pub ordinal: u8,
    pub name: Seq<char>,
}

impl View for Category {
    type V = CategoryView;

    closed spec fn view(&self) -> CategoryView {
        CategoryView { ordinal: self.ordinal, name: self.name@ }
    }
}

impl Default for Category {
    fn default() -> (category: Self)
        ensures
            category@ == (CategoryView { ordinal: 0, name: Seq::empty() }),
    {
        Self { ordinal: 0, name: String::new() }
    }
}

impl Category {
    pub fn new(ordinal: u8, name: String) -> (category: Self)
        ensures
            category@ == (CategoryView { ordinal, name: name@ }),
    {
        Self { ordinal, name }
    }

    pub fn name(&self) -> (name: &str)
        ensures
            name@ == self@.name,
    {
        self.name.as_str()
    }

    pub fn ordinal(&self) -> (ordinal: u8)
        ensures
            ordinal == self@.ordinal,
    {
        self.ordinal
    }
}

/// A symbol that stands for a whole sequence, such as a quarter circle.
#[derive(Debug, PartialEq)]
pub struct SymbolicSequence {
    name: String,
    symbol: Symbol,
    sequence: Sequence,
}

/// A symbolic sequence, as contracts see it.
pub struct SymbolicSequenceView {
    pub name: Seq<char>,
    pub symbol: Seq<char>,
    pub sequence: Seq<EntryView>,
}

impl View for SymbolicSequence {
    type V = SymbolicSequenceView;

    closed spec fn view(&self) -> SymbolicSequenceView {
        SymbolicSequenceView { name: self.name@, symbol: self.symbol@, sequence: self.sequence@ }
    }
}

impl SymbolicSequence {
    pub fn new(name: String, symbol: Symbol, sequence: Sequence) -> (symbolic: Self)
        ensures
            symbolic@ == (SymbolicSequenceView {
                name: name@,
                symbol: symbol@,
                sequence: sequence@,
            }),
    {
        Self { name, symbol, sequence }
    }

    pub fn name(&self) -> (name: &str)
        ensures
            name@ == self@.name,
    {
        self.name.as_str()
    }

    pub fn symbol(&self) -> (symbol: &Symbol)
        ensures
            symbol@ == self@.symbol,
    {
        &self.symbol
    }

    pub fn sequence(&self) -> (sequence: &Sequence)
        ensures
            sequence@ == self@.sequence,
    {
        &self.sequence
    }
}

/// A move: a sequence with a name, a category and optional remarks.
#[derive(Debug, PartialEq)]
pub struct NamedSequence {
    name: String,
    sequence: Sequence,
    category_ordinal: u8,
    notes: Option<String>,
}

/// A move, as contracts see it.
pub struct NamedSequenceView {
    pub name: Seq<char>,
    pub sequence: Seq<EntryView>,
    pub category_ordinal: u8,
    pub notes: Option<Seq<char>>,
}

impl View for NamedSequence {
    type V = NamedSequenceView;

    closed spec fn view(&self) -> NamedSequenceView {
        NamedSequenceView {
            name: self.name@,
            sequence: self.sequence@,
            category_ordinal: self.category_ordinal,
            notes: text_of(self.notes),
        }
    }
}

impl NamedSequence {
    /// A move of the category with the ordinal `category_ordinal`.
    pub fn new_raw(name: String, sequence: Sequence, category_ordinal: u8, notes: Option<String>) -> (named: Self)
        ensures
            named@ == (NamedSequenceView {
                name: name@,
                sequence: sequence@,
                category_ordinal,
                notes: text_of(notes),
            }),
    {
        Self { name, sequence, category_ordinal, notes }
    }

    /// A move of the category `category`.
    pub fn new(name: String, sequence: Sequence, category: &Category, notes: Option<String>) -> (named: Self)
        ensures
            named@ == (NamedSequenceView {
                name: name@,
                sequence: sequence@,
                category_ordinal: category@.ordinal,
                notes: text_of(notes),
            }),
    {
        Self { name, sequence, category_ordinal: category.ordinal(), notes }
    }

    pub fn name(&self) -> (name: &str)
        ensures
            name@ == self@.name,
    {
        self.name.as_str()
    }

    pub fn sequence(&self) -> (sequence: &Sequence)
        ensures
            sequence@ == self@.sequence,
    {
        &self.sequence
    }

    /// The category of the move in `game`: the first that has its ordinal.
    pub fn category<'game>(&self, game: &'game crate::game::Game) -> (category: Option<
        &'game Category,
    >)
        ensures
            found_view(category) == crate::game::first_match(
                game@.input_categories,
                crate::game::category_with_ordinal(self@.category_ordinal),
            ),
    {
        game.input_category(self.category_ordinal)
    }

    pub fn category_ordinal(&self) -> (ordinal: u8)
        ensures
            ordinal == self@.category_ordinal,
    {
        self.category_ordinal
    }

    pub fn notes(&self) -> (notes: Option<&str>)
        ensures
            text_of(notes) == self@.notes,
    {
        as_text(&self.notes)
    }
}

/// What a symbol of a game stands for.
#[derive(Debug, PartialEq)]
pub enum LookupResult<'owner> {
    Input(&'owner Input),
    Wildcard(&'owner Wildcard),
    SymbolicSequence(&'owner SymbolicSequence),
}

/// What a symbol stands for, as contracts see it.
pub enum LookupResultView {
    Input(InputView),
    Wildcard(WildcardView),
    SymbolicSequence(SymbolicSequenceView),
}

impl LookupResultView {
    /// The symbol of what was found.
    pub open spec fn symbol(self) -> Seq<char> {
        match self {
            LookupResultView::Input(input) => input.symbol,
            LookupResultView::Wildcard(wildcard) => wildcard.symbol,
            LookupResultView::SymbolicSequence(symbolic) => symbolic.symbol,
        }
    }
}

impl<'owner> View for LookupResult<'owner> {
    type V = LookupResultView;

    open spec fn view(&self) -> LookupResultView {
        match self {
            LookupResult::Input(input) => LookupResultView::Input(input@),
            LookupResult::Wildcard(wildcard) => LookupResultView::Wildcard(wildcard@),
            LookupResult::SymbolicSequence(symbolic) => LookupResultView::SymbolicSequence(
                symbolic@,
            ),
        }
    }
}

impl<'owner> LookupResult<'owner> {
    /// The symbol of what was found.
    pub fn symbol(&self) -> (symbol: &Symbol)
        ensures
            symbol@ == self@.symbol(),
    {
        match *self {
            LookupResult::Input(input) => input.symbol(),
            LookupResult::Wildcard(wildcard) => wildcard.symbol(),
            LookupResult::SymbolicSequence(symbolic) => symbolic.symbol(),
        }
    }
}

/// The view of what a lookup found.
pub open spec fn found_view<T: View>(found: Option<T>) -> Option<T::V> {
    match found {
        Some(found) => Some(found@),
        None => None,
    }
}

/// Says what the symbols of a game stand for.
pub trait SymbolicLookup {
    /// What `symbol` stands for, if the game knows it.
    spec fn meaning(&self, symbol: Seq<char>) -> Option<LookupResultView>;

    fn lookup_symbol<'owner>(&'owner self, symbol: &str) -> (found: Option<LookupResult<'owner>>)
        ensures
            found_view(found) == self.meaning(symbol@),
    ;
}

/// Knows the context tags that a game defines for itself.
pub trait ContextLookup {
    /// The context that the game registers under `token`, if any.
    spec fn custom_context(&self, token: Seq<char>) -> Option<ContextView>;

    fn lookup_custom_context<'owner>(&'owner self, context: &str) -> (found: Option<
        &'owner Context,
    >)
        ensures
            found_view(found) == self.custom_context(context@),
    ;
}

} // verus!
