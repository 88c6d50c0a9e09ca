//! A game and what it registers: inputs, wildcards, symbolic sequences,
//! contexts, categories and the moves that every character shares.

use vstd::prelude::*;
use crate::input::{
    Category, CategoryView, Context, ContextLookup, ContextTrait, ContextView, Input, InputView,
    LookupResult, LookupResultView, NamedSequence, NamedSequenceView, SymbolicLookup,
    SymbolicSequence, SymbolicSequenceView, Wildcard, WildcardView,
};
use crate::submodels::GameSubmodel;
use crate::text::{chars_of, holds};

verus! {

/// A calendar date of the `chrono` crate. The model carries it and never
/// looks inside.
#[verifier::external_type_specification]
#[verifier::external_body]
pub struct ExNaiveDate(chrono::NaiveDate);

/// The views of a list of records.
pub open spec fn views<T: View>(records: Seq<T>) -> Seq<T::V> {
    Seq::new(records.len(), |i: int| records[i]@)
}

/// The first of `records` that `wanted` holds of.
pub open spec fn first_match<T>(records: Seq<T>, wanted: spec_fn(T) -> bool) -> Option<T>
    decreases records.len(),
{
    if records.len() == 0 {
        None
    } else if wanted(records.first()) {
        Some(records.first())
    } else {
        first_match(records.drop_first(), wanted)
    }
}

/// A search that has passed `upto` records without a match finds the next
/// record if `wanted` holds of it, and nothing if no record is left.
pub proof fn lemma_first_match<T>(records: Seq<T>, wanted: spec_fn(T) -> bool, upto: int)
    requires
        0 <= upto <= records.len(),
        forall|k: int| 0 <= k < upto ==> !wanted(#[trigger] records[k]),
    ensures
        upto < records.len() && wanted(records[upto]) ==> first_match(records, wanted) == Some(
            records[upto],
        ),
        upto == records.len() ==> first_match(records, wanted) is None,
    decreases records.len(),
{
    if records.len() > 0 && upto > 0 {
        let rest = records.drop_first();
        assert(!wanted(records[0]));
        assert forall|k: int| 0 <= k < upto - 1 implies !wanted(#[trigger] rest[k]) by {
            assert(rest[k] == records[k + 1]);
        }
        lemma_first_match(rest, wanted, upto - 1);
    }
}

/// Holds of the inputs that are written `symbol`.
pub open spec fn input_with_symbol(symbol: Seq<char>) -> spec_fn(InputView) -> bool {
    |input: InputView| input.symbol == symbol
}

/// Holds of the wildcards that are written `symbol`.
pub open spec fn wildcard_with_symbol(symbol: Seq<char>) -> spec_fn(WildcardView) -> bool {
    |wildcard: WildcardView| wildcard.symbol == symbol
}

/// Holds of the symbolic sequences that are written `symbol`.
pub open spec fn sequence_with_symbol(symbol: Seq<char>) -> spec_fn(SymbolicSequenceView) -> bool {
    |sequence: SymbolicSequenceView| sequence.symbol == symbol
}

/// Holds of the contexts whose tag is `token`.
pub open spec fn context_with_token(token: Seq<char>) -> spec_fn(ContextView) -> bool {
    |context: ContextView| context.token() == token
}

/// Holds of the categories that are called `name`.
pub open spec fn category_with_name(name: Seq<char>) -> spec_fn(CategoryView) -> bool {
    |category: CategoryView| category.name == name
}

/// Holds of the categories with the ordinal `ordinal`.
pub open spec fn category_with_ordinal(ordinal: u8) -> spec_fn(CategoryView) -> bool {
    |category: CategoryView| category.ordinal == ordinal
}

/// What is known of a game besides its moves.
#[derive(Debug, PartialEq)]
pub struct Profile {
    name: String,
    developer: String,
    publisher: String,
    release_date: chrono::NaiveDate,
    website_url: String,
    wikipedia_page_url: String,
    platform_names: Vec<String>,
}

/// A profile, as contracts see it.
pub struct ProfileView {
    pub name: Seq<char>,
    pub developer: Seq<char>,
    pub publisher: Seq<char>,
    pub release_date: chrono::NaiveDate,
    pub website_url: Seq<char>,
    pub wikipedia_page_url: Seq<char>,
    pub platform_names: Seq<Seq<char>>,
}

impl View for Profile {
    type V = ProfileView;

    closed spec fn view(&self) -> ProfileView {
        ProfileView {
            name: self.name@,
            developer: self.developer@,
            publisher: self.publisher@,
            release_date: self.release_date,
            website_url: self.website_url@,
            wikipedia_page_url: self.wikipedia_page_url@,
            platform_names: views(self.platform_names@),
        }
    }
}

impl Profile {
    pub fn new(
        name: String,
        developer: String,
        publisher: String,
        release_date: chrono::NaiveDate,
        website_url: String,
        wikipedia_page_url: String,
        platform_names: Vec<String>,
    ) -> (profile: Self)
        ensures
            profile@ == (ProfileView {
                name: name@,
                developer: developer@,
                publisher: publisher@,
                release_date,
                website_url: website_url@,
                wikipedia_page_url: wikipedia_page_url@,
                platform_names: views(platform_names@),
            }),
    {
        Self {
            name,
            developer,
            publisher,
            release_date,
            website_url,
            wikipedia_page_url,
            platform_names,
        }
    }

    pub fn name(&self) -> (name: &str)
        ensures
            name@ == self@.name,
    {
        self.name.as_str()
    }

    pub fn developer(&self) -> (developer: &str)
        ensures
            developer@ == self@.developer,
    {
        self.developer.as_str()
    }

    pub fn publisher(&self) -> (publisher: &str)
        ensures
            publisher@ == self@.publisher,
    {
        self.publisher.as_str()
    }

    pub fn release_date(&self) -> (release_date: &chrono::NaiveDate)
        ensures
            *release_date == self@.release_date,
    {
        &self.release_date
    }

    pub fn website_url(&self) -> (website_url: &str)
        ensures
            website_url@ == self@.website_url,
    {
        self.website_url.as_str()
    }

    pub fn wikipedia_page_url(&self) -> (wikipedia_page_url: &str)
        ensures
            wikipedia_page_url@ == self@.wikipedia_page_url,
    {
        self.wikipedia_page_url.as_str()
    }

    pub fn platform_names(&self) -> (platform_names: &Vec<String>)
        ensures
            views(platform_names@) == self@.platform_names,
    {
        &self.platform_names
    }
}

/// A game: its profile and all that it registers.
#[derive(Debug, PartialEq)]
pub struct Game {
    profile: Profile,
    character_names: Vec<String>,
    inputs: Vec<Input>,
    wildcard_inputs: Vec<Wildcard>,
    move_contexts: Vec<Context>,
    symbolic_sequences: Vec<SymbolicSequence>,
    input_categories: Vec<Category>,
    universal_moves: Vec<NamedSequence>,
    submodel: GameSubmodel,
}

/// A game, as contracts see it.
pub struct GameView {
    pub profile: ProfileView,
    pub character_names: Seq<Seq<char>>,
    pub inputs: Seq<InputView>,
    pub wildcard_inputs: Seq<WildcardView>,
    pub move_contexts: Seq<ContextView>,
    pub symbolic_sequences: Seq<SymbolicSequenceView>,
    pub input_categories: Seq<CategoryView>,
    pub universal_moves: Seq<NamedSequenceView>,
    pub submodel: GameSubmodel,
}

impl GameView {
    /// What `symbol` stands for in the game: an input before a wildcard, a
    /// wildcard before a symbolic sequence, and of several of a kind the
    /// first.
    pub open spec fn meaning(self, symbol: Seq<char>) -> Option<LookupResultView> {
        match first_match(self.inputs, input_with_symbol(symbol)) {
            Some(input) => Some(LookupResultView::Input(input)),
            None => match first_match(self.wildcard_inputs, wildcard_with_symbol(symbol)) {
                Some(wildcard) => Some(LookupResultView::Wildcard(wildcard)),
                None => match first_match(self.symbolic_sequences, sequence_with_symbol(symbol)) {
                    Some(sequence) => Some(LookupResultView::SymbolicSequence(sequence)),
                    None => None,
                },
            },
        }
    }
}

impl View for Game {
    type V = GameView;

    closed spec fn view(&self) -> GameView {
        GameView {
            profile: self.profile@,
            character_names: views(self.character_names@),
            inputs: views(self.inputs@),
            wildcard_inputs: views(self.wildcard_inputs@),
            move_contexts: views(self.move_contexts@),
            symbolic_sequences: views(self.symbolic_sequences@),
            input_categories: views(self.input_categories@),
            universal_moves: views(self.universal_moves@),
            submodel: self.submodel,
        }
    }
}

impl Game {
    pub fn new(
        profile: Profile,
        character_names: Vec<String>,
        inputs: Vec<Input>,
        wildcard_inputs: Vec<Wildcard>,
        move_contexts: Vec<Context>,
        input_categories: Vec<Category>,
        symbolic_sequences: Vec<SymbolicSequence>,
        universal_moves: Vec<NamedSequence>,
        submodel: GameSubmodel,
    ) -> (game: Self)
        ensures
            game@ == (GameView {
                profile: profile@,
                character_names: views(character_names@),
                inputs: views(inputs@),
                wildcard_inputs: views(wildcard_inputs@),
                move_contexts: views(move_contexts@),
                symbolic_sequences: views(symbolic_sequences@),
                input_categories: views(input_categories@),
                universal_moves: views(universal_moves@),
                submodel,
            }),
    {
        Self {
            profile,
            character_names,
            inputs,
            wildcard_inputs,
            move_contexts,
            input_categories,
            symbolic_sequences,
            universal_moves,
            submodel,
        }
    }

    pub fn name(&self) -> (name: &str)
        ensures
            name@ == self@.profile.name,
    {
        self.profile.name()
    }

    pub fn profile(&self) -> (profile: &Profile)
        ensures
            profile@ == self@.profile,
    {
        &self.profile
    }

    pub fn character_names(&self) -> (character_names: &[String])
        ensures
            views(character_names@) == self@.character_names,
    {
        self.character_names.as_slice()
    }

    pub fn inputs(&self) -> (inputs: &[Input])
        ensures
            views(inputs@) == self@.inputs,
    {
        self.inputs.as_slice()
    }

    pub fn wildcard_inputs(&self) -> (wildcard_inputs: &[Wildcard])
        ensures
            views(wildcard_inputs@) == self@.wildcard_inputs,
    {
        self.wildcard_inputs.as_slice()
    }

    pub fn move_contexts(&self) -> (move_contexts: &[Context])
        ensures
            views(move_contexts@) == self@.move_contexts,
    {
        self.move_contexts.as_slice()
    }

    pub fn symbolic_sequences(&self) -> (symbolic_sequences: &[SymbolicSequence])
        ensures
            views(symbolic_sequences@) == self@.symbolic_sequences,
    {
        self.symbolic_sequences.as_slice()
    }

    pub fn input_categories(&self) -> (input_categories: &[Category])
        ensures
            views(input_categories@) == self@.input_categories,
    {
        self.input_categories.as_slice()
    }

    pub fn universal_moves(&self) -> (universal_moves: &[NamedSequence])
        ensures
            views(universal_moves@) == self@.universal_moves,
    {
        self.universal_moves.as_slice()
    }

    pub fn submodel(&self) -> (submodel: &GameSubmodel)
        ensures
            *submodel == self@.submodel,
    {
        &self.submodel
    }

    /// The first category with the ordinal `category_ordinal`.
    pub fn input_category(&self, category_ordinal: u8) -> (found: Option<&Category>)
        ensures
            crate::input::found_view(found) == first_match(
                self@.input_categories,
                category_with_ordinal(category_ordinal),
            ),
    {
        let ghost records = self@.input_categories;
        let ghost wanted = category_with_ordinal(category_ordinal);
        let mut i: usize = 0;
        while i < self.input_categories.len()
            invariant
                i <= self.input_categories.len(),
                records == views(self.input_categories@),
                wanted == category_with_ordinal(category_ordinal),
                forall|k: int| 0 <= k < i ==> !wanted(#[trigger] records[k]),
            decreases self.input_categories.len() - i,
        {
            if self.input_categories[i].ordinal() == category_ordinal {
                proof {
                    lemma_first_match(records, wanted, i as int);
                }
                return Some(&self.input_categories[i]);
            }
            i += 1;
        }
        proof {
            lemma_first_match(records, wanted, i as int);
        }
        None
    }

    /// The first input that is written `symbol`.
    pub fn find_input(&self, symbol: &str) -> (found: Option<&Input>)
        ensures
            crate::input::found_view(found) == first_match(
                self@.inputs,
                input_with_symbol(symbol@),
            ),
    {
        let ghost records = self@.inputs;
        let ghost wanted = input_with_symbol(symbol@);
        let chars = chars_of(symbol);
        let mut i: usize = 0;
        while i < self.inputs.len()
            invariant
                i <= self.inputs.len(),
                chars@ == symbol@,
                records == views(self.inputs@),
                wanted == input_with_symbol(symbol@),
                forall|k: int| 0 <= k < i ==> !wanted(#[trigger] records[k]),
            decreases self.inputs.len() - i,
        {
            if holds(self.inputs[i].symbol().as_str(), &chars) {
                proof {
                    lemma_first_match(records, wanted, i as int);
                }
                return Some(&self.inputs[i]);
            }
            i += 1;
        }
        proof {
            lemma_first_match(records, wanted, i as int);
        }
        None
    }

    /// The first wildcard that is written `symbol`.
    pub fn find_wildcard_input(&self, symbol: &str) -> (found: Option<&Wildcard>)
        ensures
            crate::input::found_view(found) == first_match(
                self@.wildcard_inputs,
                wildcard_with_symbol(symbol@),
            ),
    {
        let ghost records = self@.wildcard_inputs;
        let ghost wanted = wildcard_with_symbol(symbol@);
        let chars = chars_of(symbol);
        let mut i: usize = 0;
        while i < self.wildcard_inputs.len()
            invariant
                i <= self.wildcard_inputs.len(),
                chars@ == symbol@,
                records == views(self.wildcard_inputs@),
                wanted == wildcard_with_symbol(symbol@),
                forall|k: int| 0 <= k < i ==> !wanted(#[trigger] records[k]),
            decreases self.wildcard_inputs.len() - i,
        {
            if holds(self.wildcard_inputs[i].symbol().as_str(), &chars) {
                proof {
                    lemma_first_match(records, wanted, i as int);
                }
                return Some(&self.wildcard_inputs[i]);
            }
            i += 1;
        }
        proof {
            lemma_first_match(records, wanted, i as int);
        }
        None
    }

    /// The first context of the game whose tag is `context_token`.
    pub fn find_move_context(&self, context_token: &str) -> (found: Option<&Context>)
        ensures
            crate::input::found_view(found) == first_match(
                self@.move_contexts,
                context_with_token(context_token@),
            ),
    {
        let ghost records = self@.move_contexts;
        let ghost wanted = context_with_token(context_token@);
        let chars = chars_of(context_token);
        let mut i: usize = 0;
        while i < self.move_contexts.len()
            invariant
                i <= self.move_contexts.len(),
                chars@ == context_token@,
                records == views(self.move_contexts@),
                wanted == context_with_token(context_token@),
                forall|k: int| 0 <= k < i ==> !wanted(#[trigger] records[k]),
            decreases self.move_contexts.len() - i,
        {
            if holds(self.move_contexts[i].token(), &chars) {
                proof {
                    lemma_first_match(records, wanted, i as int);
                }
                return Some(&self.move_contexts[i]);
            }
            i += 1;
        }
        proof {
            lemma_first_match(records, wanted, i as int);
        }
        None
    }

    /// The first symbolic sequence that is written `symbol`.
    pub fn find_symbolic_sequence(&self, symbol: &str) -> (found: Option<&SymbolicSequence>)
        ensures
            crate::input::found_view(found) == first_match(
                self@.symbolic_sequences,
                sequence_with_symbol(symbol@),
            ),
    {
        let ghost records = self@.symbolic_sequences;
        let ghost wanted = sequence_with_symbol(symbol@);
        let chars = chars_of(symbol);
        let mut i: usize = 0;
        while i < self.symbolic_sequences.len()
            invariant
                i <= self.symbolic_sequences.len(),
                chars@ == symbol@,
                records == views(self.symbolic_sequences@),
                wanted == sequence_with_symbol(symbol@),
                forall|k: int| 0 <= k < i ==> !wanted(#[trigger] records[k]),
            decreases self.symbolic_sequences.len() - i,
        {
            if holds(self.symbolic_sequences[i].symbol().as_str(), &chars) {
                proof {
                    lemma_first_match(records, wanted, i as int);
                }
                return Some(&self.symbolic_sequences[i]);
            }
            i += 1;
        }
        proof {
            lemma_first_match(records, wanted, i as int);
        }
        None
    }

    /// The first category that is called `name`.
    pub fn find_input_category(&self, name: &str) -> (found: Option<&Category>)
        ensures
            crate::input::found_view(found) == first_match(
                self@.input_categories,
                category_with_name(name@),
            ),
    {
        let ghost records = self@.input_categories;
        let ghost wanted = category_with_name(name@);
        let chars = chars_of(name);
        let mut i: usize = 0;
        while i < self.input_categories.len()
            invariant
                i <= self.input_categories.len(),
                chars@ == name@,
                records == views(self.input_categories@),
                wanted == category_with_name(name@),
                forall|k: int| 0 <= k < i ==> !wanted(#[trigger] records[k]),
            decreases self.input_categories.len() - i,
        {
            if holds(self.input_categories[i].name(), &chars) {
                proof {
                    lemma_first_match(records, wanted, i as int);
                }
                return Some(&self.input_categories[i]);
            }
            i += 1;
        }
        proof {
            lemma_first_match(records, wanted, i as int);
        }
        None
    }
}

impl SymbolicLookup for Game {
    open spec fn meaning(&self, symbol: Seq<char>) -> Option<LookupResultView> {
        self@.meaning(symbol)
    }

    fn lookup_symbol<'g>(&'g self, symbol: &str) -> (found: Option<LookupResult<'g>>) {
        if let Some(input) = self.find_input(symbol) {
            return Some(LookupResult::Input(input));
        } else if let Some(wildcard) = self.find_wildcard_input(symbol) {
            return Some(LookupResult::Wildcard(wildcard));
        } else if let Some(symbol_sequence) = self.find_symbolic_sequence(symbol) {
            return Some(LookupResult::SymbolicSequence(symbol_sequence));
        }
        None
    }
}

impl ContextLookup for Game {
    /// The first context of the game whose tag is `token`.
    open spec fn custom_context(&self, token: Seq<char>) -> Option<ContextView> {
        first_match(self@.move_contexts, context_with_token(token))
    }

    fn lookup_custom_context<'owner>(&'owner self, context_token: &str) -> (found: Option<
        &'owner Context,
    >) {
        self.find_move_context(context_token)
    }
}

/// Builds a game in stages. Sequences are read with the help of the game
/// that they belong to, so the game has to exist before its sequences do:
/// first what needs no reading, then the symbolic sequences, then the moves
/// that every character shares, then what the title adds.
pub struct StagedBuilder {
    has_symbolic_sequences: bool,
    has_universal_moves: bool,
    has_specifics: bool,
    game: Game,
}

impl StagedBuilder {
    /// Whether the symbolic sequences have been set.
    pub closed spec fn has_symbolic_sequences(&self) -> bool {
        self.has_symbolic_sequences
    }

    /// Whether the universal moves have been set.
    pub closed spec fn has_universal_moves(&self) -> bool {
        self.has_universal_moves
    }

    /// Whether the submodel has been set.
    pub closed spec fn has_specifics(&self) -> bool {
        self.has_specifics
    }

    /// The game as it stands.
    pub closed spec fn staged(&self) -> GameView {
        self.game@
    }

    pub fn new(
        profile: Profile,
        character_names: Vec<String>,
        inputs: Vec<Input>,
        wildcard_inputs: Vec<Wildcard>,
        move_contexts: Vec<Context>,
        input_categories: Vec<Category>,
    ) -> (builder: Self)
        ensures
            !builder.has_symbolic_sequences(),
            !builder.has_universal_moves(),
            !builder.has_specifics(),
            builder.staged() == (GameView {
                profile: profile@,
                character_names: views(character_names@),
                inputs: views(inputs@),
                wildcard_inputs: views(wildcard_inputs@),
                move_contexts: views(move_contexts@),
                symbolic_sequences: Seq::empty(),
                input_categories: views(input_categories@),
                universal_moves: Seq::empty(),
                submodel: GameSubmodel::Generic,
            }),
    {
        let symbolic_sequences: Vec<SymbolicSequence> = Vec::new();
        let universal_moves: Vec<NamedSequence> = Vec::new();
        proof {
            assert(views(symbolic_sequences@) =~= Seq::<SymbolicSequenceView>::empty());
            assert(views(universal_moves@) =~= Seq::<NamedSequenceView>::empty());
        }
        Self {
            has_symbolic_sequences: false,
            has_universal_moves: false,
            has_specifics: false,
            game: Game {
                profile,
                character_names,
                inputs,
                wildcard_inputs,
                move_contexts,
                input_categories,
                symbolic_sequences,
                universal_moves,
                submodel: GameSubmodel::Generic,
            },
        }
    }

    /// Whether the first stage is done.
    pub fn symbolic_sequences_set(&self) -> (set: bool)
        ensures
            set == self.has_symbolic_sequences(),
    {
        self.has_symbolic_sequences
    }

    /// Whether the second stage is done.
    pub fn universal_moves_set(&self) -> (set: bool)
        ensures
            set == self.has_universal_moves(),
    {
        self.has_universal_moves
    }

    /// Whether the last stage is done.
    pub fn specifics_set(&self) -> (set: bool)
        ensures
            set == self.has_specifics(),
    {
        self.has_specifics
    }

    pub fn current(&self) -> (game: &Game)
        ensures
            game@ == self.staged(),
    {
        &self.game
    }

    /// Sets the symbolic sequences. This is the first stage.
    pub fn symbolic_sequences(&mut self, symbolic_sequences: Vec<SymbolicSequence>) -> (builder:
        &mut Self)
        ensures
            builder.has_symbolic_sequences(),
            builder.has_universal_moves() == old(self).has_universal_moves(),
            builder.has_specifics() == old(self).has_specifics(),
            builder.staged() == (GameView {
                symbolic_sequences: views(symbolic_sequences@),
                ..old(self).staged()
            }),
            *final(self) == *final(builder),
    {
        self.game.symbolic_sequences = symbolic_sequences;
        self.has_symbolic_sequences = true;
        self
    }

    /// Sets the moves that every character shares. The symbolic sequences
    /// come first.
    pub fn universal_moves(&mut self, universal_moves: Vec<NamedSequence>) -> (builder: &mut Self)
        requires
            old(self).has_symbolic_sequences(),
        ensures
            builder.has_symbolic_sequences(),
            builder.has_universal_moves(),
            builder.has_specifics() == old(self).has_specifics(),
            builder.staged() == (GameView {
                universal_moves: views(universal_moves@),
                ..old(self).staged()
            }),
            *final(self) == *final(builder),
    {
        self.game.universal_moves = universal_moves;
        self.has_universal_moves = true;
        self
    }

    /// Sets what the title adds. The universal moves come first.
    pub fn submodel(&mut self, submodel: GameSubmodel) -> (builder: &mut Self)
        requires
            old(self).has_universal_moves(),
        ensures
            builder.has_symbolic_sequences() == old(self).has_symbolic_sequences(),
            builder.has_universal_moves(),
            builder.has_specifics(),
            builder.staged() == (GameView { submodel, ..old(self).staged() }),
            *final(self) == *final(builder),
    {
        self.game.submodel = submodel;
        self.has_specifics = true;
        self
    }

    /// Hands out the game once every stage is done.
    pub fn build(self) -> (game: Game)
        requires
            self.has_specifics(),
        ensures
            game@ == self.staged(),
    {
        self.game
    }
}

/// The name that a game gives to one of its inputs.
#[derive(Debug, PartialEq)]
pub struct InputBinding {
    name: String,
    input: Input,
}

/// An input binding, as contracts see it.
pub struct InputBindingView {
    pub name: Seq<char>,
    pub input: InputView,
}

impl View for InputBinding {
    type V = InputBindingView;

    closed spec fn view(&self) -> InputBindingView {
        InputBindingView { name: self.name@, input: self.input@ }
    }
}

impl InputBinding {
    pub fn new(name: String, input: Input) -> (binding: Self)
        ensures
            binding@ == (InputBindingView { name: name@, input: input@ }),
    {
        Self { name, input }
    }
}


} // verus!
