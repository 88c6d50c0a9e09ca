use chrono::NaiveDate;
use fgcd_model::game::{Game, Profile};
use fgcd_model::input::error::ParseErrorKind;
use fgcd_model::input::parse::try_parse_context_entry;
use fgcd_model::input::print::{entries_to_string, entry_to_string, IndexPosition};
use fgcd_model::input::split::split_char;
use fgcd_model::input::{
    Category, CombinationEntry, CombinationItem, Context, Entry, GroupEntry, Input, InputEntry,
    NamedSequence, Sequence, Symbol, SymbolicSequence, Technique, Wildcard,
};
use fgcd_model::GameSubmodel;

fn game_fixture() -> Game {
    Game::new(
        Profile::new(
            String::from("Ternary Op 3"),
            String::from("Asmov LLC"),
            String::from("Asmov"),
            NaiveDate::from_ymd_opt(2023, 10, 4).unwrap(),
            String::from("https://asmov.software"),
            String::from("https://en.wikipedia.org/wiki/Ternary_conditional_operator"),
            vec![String::from("Linux")],
        ),
        vec![String::from("If"), String::from("Then"), String::from("Else")],
        vec![
            Input::new(String::from("Up"), String::from("U")),
            Input::new(String::from("Up-Forward"), String::from("UF")),
            Input::new(String::from("Forward"), String::from("F")),
            Input::new(String::from("Down-Forward"), String::from("DF")),
            Input::new(String::from("Down"), String::from("D")),
            Input::new(String::from("Down-Back"), String::from("DB")),
            Input::new(String::from("Back"), String::from("B")),
            Input::new(String::from("Up-Back"), String::from("UB")),
            Input::new(String::from("Block"), String::from("BLK")),
            Input::new(String::from("Alternate"), String::from("ALT")),
            Input::new(String::from("Special 1"), String::from("SP1")),
            Input::new(String::from("Special 2"), String::from("SP2")),
            Input::new(String::from("Punch 1"), String::from("P1")),
            Input::new(String::from("Punch 2"), String::from("P2")),
            Input::new(String::from("Punch 3"), String::from("P3")),
            Input::new(String::from("Kick 1"), String::from("K1")),
            Input::new(String::from("Kick 2"), String::from("K2")),
            Input::new(String::from("Kick 3"), String::from("K3")),
        ],
        vec![
            Wildcard::new(
                String::from("Any Punch"),
                String::from("P"),
                vec![Symbol::from("P1"), Symbol::from("P2"), Symbol::from("P3")],
            ),
            Wildcard::new(
                String::from("Any Kick"),
                String::from("K"),
                vec![Symbol::from("P1"), Symbol::from("P2"), Symbol::from("P3")],
            ),
            Wildcard::new(
                String::from("Any Two Punches"),
                String::from("2P"),
                vec![Symbol::from("P1"), Symbol::from("P2"), Symbol::from("P3")],
            ),
            Wildcard::new(
                String::from("Any Two Kicks"),
                String::from("2K"),
                vec![Symbol::from("P1"), Symbol::from("P2"), Symbol::from("P3")],
            ),
            Wildcard::new(
                String::from("Any Three Punches"),
                String::from("3P"),
                vec![Symbol::from("P1"), Symbol::from("P2"), Symbol::from("P3")],
            ),
            Wildcard::new(
                String::from("Any Three Kicks"),
                String::from("3K"),
                vec![Symbol::from("P1"), Symbol::from("P2"), Symbol::from("P3")],
            ),
        ],
        vec![Context::Custom(String::from("exceptional"))],
        vec![
            Category::new(0, String::from("Normal Move")),
            Category::new(1, String::from("Special Move")),
        ],
        vec![
            SymbolicSequence::new(
                String::from("Quarter Circle Forward"),
                Symbol::from("QCF"),
                Sequence::new(vec![
                    InputEntry::for_symbol("D"),
                    InputEntry::for_symbol("DF"),
                    InputEntry::for_symbol("F"),
                ]),
            ),
            SymbolicSequence::new(
                String::from("Quarter Circle Back"),
                Symbol::from("QCB"),
                Sequence::new(vec![
                    InputEntry::for_symbol("D"),
                    InputEntry::for_symbol("DB"),
                    InputEntry::for_symbol("B"),
                ]),
            ),
            SymbolicSequence::new(
                String::from("Z-Motion Forward"),
                Symbol::from("ZF"),
                Sequence::new(vec![
                    InputEntry::for_symbol("F"),
                    InputEntry::for_symbol("D"),
                    InputEntry::for_symbol("DF"),
                    InputEntry::for_symbol("F"),
                ]),
            ),
            SymbolicSequence::new(
                String::from("Z-Motion Back"),
                Symbol::from("ZB"),
                Sequence::new(vec![
                    InputEntry::for_symbol("B"),
                    InputEntry::for_symbol("D"),
                    InputEntry::for_symbol("DB"),
                    InputEntry::for_symbol("B"),
                ]),
            ),
        ],
        vec![NamedSequence::new_raw(
            String::from("Combo Breaker"),
            Sequence::new(vec![CombinationEntry::for_symbols(vec!["F", "BLK"])]),
            0,
            Some(String::from("Perform during an opponent's combo")),
        )],
        GameSubmodel::Generic,
    )
}

#[test]
fn compare_displayed() {
    let game = game_fixture();
    let sequences_strings = vec!["(Air) B, F, P1", "D + P2 (hold P2)", "B + [ P1, P2, P3 ]"];

    for sequence_string in sequences_strings {
        let sequence = Sequence::parse(sequence_string, &game, &game).unwrap();
        let actual = sequence.to_string();
        assert_eq!(sequence_string, actual);
    }
}

#[test]
fn parse_sequence_and_displayed() {
    let game = game_fixture();
    let expected_sequences: Vec<(&'static str, Option<Sequence>)> = vec![
        (
            "(Air) B, F, P1",
            Some(Sequence::new(vec![
                Entry::Input(InputEntry::new(
                    Symbol::from("B"),
                    None,
                    Some(String::from("Air")),
                    None,
                )),
                InputEntry::for_symbol("F"),
                InputEntry::for_symbol("P1"),
            ])),
        ),
        (
            "(Air)B,F,P1",
            Some(Sequence::new(vec![
                Entry::Input(InputEntry::new(
                    Symbol::from("B"),
                    None,
                    Some(String::from("Air")),
                    None,
                )),
                InputEntry::for_symbol("F"),
                InputEntry::for_symbol("P1"),
            ])),
        ),
        (
            "D+P2 (hold P2)",
            Some(Sequence::new(vec![Entry::Combination(CombinationEntry::new(
                vec![
                    CombinationItem::Symbol(Symbol::from("D")),
                    CombinationItem::Symbol(Symbol::from("P2")),
                ],
                None,
                None,
                Some(String::from("hold P2")),
            ))])),
        ),
        (
            "F+K1+K2",
            Some(Sequence::new(vec![Entry::Combination(CombinationEntry::new(
                vec![
                    CombinationItem::Symbol(Symbol::from("F")),
                    CombinationItem::Symbol(Symbol::from("K1")),
                    CombinationItem::Symbol(Symbol::from("K2")),
                ],
                None,
                None,
                None,
            ))])),
        ),
        (
            "B + K3",
            Some(Sequence::new(vec![CombinationEntry::for_symbols(vec!["B", "K3"])])),
        ),
        (
            "U + 3K",
            Some(Sequence::new(vec![CombinationEntry::for_symbols(vec!["U", "3K"])])),
        ),
        (
            "F + P1 + P2",
            Some(Sequence::new(vec![CombinationEntry::for_symbols(vec!["F", "P1", "P2"])])),
        ),
        (
            "B+K2, ALT, (wait until Alt's last hit) D, F, P3",
            Some(Sequence::new(vec![
                CombinationEntry::for_symbols(vec!["B", "K2"]),
                InputEntry::for_symbol("ALT"),
                Entry::Input(InputEntry::new(
                    Symbol::from("D"),
                    None,
                    Some(String::from("wait until Alt's last hit")),
                    None,
                )),
                InputEntry::for_symbol("F"),
                InputEntry::for_symbol("P3"),
            ])),
        ),
        (
            "QCF, P",
            Some(Sequence::new(vec![InputEntry::for_symbol("QCF"), InputEntry::for_symbol("P")])),
        ),
        (
            "QCF,2P",
            Some(Sequence::new(vec![InputEntry::for_symbol("QCF"), InputEntry::for_symbol("2P")])),
        ),
        (
            "QCB, 3P",
            Some(Sequence::new(vec![InputEntry::for_symbol("QCB"), InputEntry::for_symbol("3P")])),
        ),
        (
            "F,QCF, P2",
            Some(Sequence::new(vec![
                InputEntry::for_symbol("F"),
                InputEntry::for_symbol("QCF"),
                InputEntry::for_symbol("P2"),
            ])),
        ),
        (
            "ZF, P1",
            Some(Sequence::new(vec![InputEntry::for_symbol("ZF"), InputEntry::for_symbol("P1")])),
        ),
        (
            "<charge> B, F, P",
            Some(Sequence::new(vec![
                Entry::Input(InputEntry::new(
                    Symbol::from("B"),
                    Some(Technique::Charge),
                    None,
                    None,
                )),
                InputEntry::for_symbol("F"),
                InputEntry::for_symbol("P"),
            ])),
        ),
        // the technique stands on the wrong side
        ("B <charge>, F, P", None),
        // no technique has this name
        ("<error> B, F, P", None),
        (
            "B + [ P1, P2, P3 ]",
            Some(Sequence::new(vec![Entry::Combination(CombinationEntry::new(
                vec![
                    CombinationItem::Symbol(Symbol::from("B")),
                    CombinationItem::Group(GroupEntry::new(
                        vec![
                            InputEntry::for_symbol("P1"),
                            InputEntry::for_symbol("P2"),
                            InputEntry::for_symbol("P3"),
                        ],
                        None,
                        None,
                        None,
                    )),
                ],
                None,
                None,
                None,
            ))])),
        ),
        (
            "<quick> [ P2, K3, P1 ]",
            Some(Sequence::new(vec![Entry::Group(GroupEntry::new(
                vec![
                    InputEntry::for_symbol("P2"),
                    InputEntry::for_symbol("K3"),
                    InputEntry::for_symbol("P1"),
                ],
                Some(Technique::Quick),
                None,
                None,
            ))])),
        ),
        (
            "QCF, P {juggle, exceptional} K3",
            Some(Sequence::new(vec![
                InputEntry::for_symbol("QCF"),
                InputEntry::for_symbol("P"),
                Entry::Context(vec![Context::Juggle, Context::Custom(String::from("exceptional"))]),
                InputEntry::for_symbol("K3"),
            ])),
        ),
    ];

    for expected_sequence in &expected_sequences {
        let result = Sequence::parse(expected_sequence.0, &game, &game);
        if let Some(fixed_sequence) = &expected_sequence.1 {
            let actual_sequence = result.unwrap();
            assert_eq!(
                fixed_sequence, &actual_sequence,
                "Sequence::parse(`{}`) should match fixture :: {:#?}",
                expected_sequence.0, actual_sequence
            );
        } else if let Ok(sequence) = result {
            assert!(
                false,
                "Sequence::parse(`{}`) should have failed. Instead: {:#?} ",
                expected_sequence.0, sequence
            );
        }

        // to text and back
        if let Some(sequence) = expected_sequence.1.as_ref() {
            let displayed_sequence = sequence.to_string();
            let parsed_sequence = Sequence::parse(&displayed_sequence, &game, &game);
            assert!(
                parsed_sequence.is_ok(),
                "Unable to parse Display<Sequence>: {} -> {} :: {:?}",
                expected_sequence.0,
                displayed_sequence,
                parsed_sequence.err().unwrap()
            );
            let parsed_sequence = parsed_sequence.ok().unwrap();
            assert_eq!(
                sequence,
                &parsed_sequence,
                "Original Sequence and its parsed Display<> should match: `{}` vs `{}`",
                expected_sequence.0,
                parsed_sequence.to_string()
            );
        }
    }
}

#[test]
fn test_named_sequence_new() {
    let game = game_fixture();
    let named_sequence = NamedSequence::new(
        String::from("Sonic Something"),
        Sequence::new(vec![
            Entry::Input(InputEntry::new(Symbol::from("B"), Some(Technique::Charge), None, None)),
            InputEntry::for_symbol("F"),
            InputEntry::for_symbol("P"),
        ]),
        game.find_input_category("Special Move").unwrap(),
        Some(String::from("This is hard to do!")),
    );

    assert_eq!(
        game.input_category(1),
        named_sequence.category(&game),
        "Categories should match"
    );
}

#[test]
fn test_split_char() {
    let tests = vec![
        // 0. input, 1. delimiter, 2. context blocks apart, 3. expected output
        ("A,B,C", ',', true, vec!["A", "B", "C"]),
        (" A , B , C ", ',', true, vec!["A", "B", "C"]),
        ("A, B, {air} C", ',', true, vec!["A", "B", "{air}", "C"]),
        ("A, B, {air}", ',', true, vec!["A", "B", "{air}"]),
        ("A, B, {air}C", ',', true, vec!["A", "B", "{air}", "C"]),
        (" {air}A, B", ',', true, vec!["{air}", "A", "B"]),
        ("A, B, {air} C", ',', false, vec!["A", "B", "{air} C"]),
        ("A + B + {air} C", '+', false, vec!["A", "B", "{air} C"]),
        ("A {juggle, air} B", ',', true, vec!["A", "{juggle, air}", "B"]),
    ];

    for test in tests {
        let actual = split_char(test.1, test.2, test.0).unwrap();
        assert_eq!(test.3, actual, "Actual output should match: {}", test.0);
    }
}

#[test]
fn test_try_parse_context_entry() {
    let game = game_fixture();
    let tests = vec![
        ("bleh", None),
        ("{air}", Some(vec![Context::Air])),
        ("{air,close}", Some(vec![Context::Air, Context::Close])),
        ("{exceptional}", Some(vec![Context::Custom(String::from("exceptional"))])),
    ];
    let err_tests = vec!["{foo}"];

    for test in tests {
        let actual = try_parse_context_entry(test.0, &game).unwrap();
        assert_eq!(test.1, actual, "Actual output should match: {}", test.0);
    }

    for err_test in err_tests {
        let actual = try_parse_context_entry(err_test, &game);
        assert!(
            actual.is_err(),
            "Actual result should have been an error: {} :: {:#?}",
            err_test,
            actual.ok().unwrap()
        );
    }
}

fn kind_of(text: &str) -> Option<ParseErrorKind> {
    let game = game_fixture();
    match Sequence::parse(text, &game, &game) {
        Ok(_) => None,
        Err(error) => Some(error.kind()),
    }
}

fn canonical(text: &str) -> String {
    let game = game_fixture();
    Sequence::parse(text, &game, &game).unwrap().to_string()
}

#[test]
fn whitespace_is_tolerated() {
    let game = game_fixture();
    assert_eq!(
        Sequence::parse("(Air)B,F,P1", &game, &game).unwrap(),
        Sequence::parse("(Air) B, F, P1", &game, &game).unwrap()
    );
    assert_eq!(
        Sequence::parse("  QCF ,\tP  ", &game, &game).unwrap(),
        Sequence::parse("QCF, P", &game, &game).unwrap()
    );
}

#[test]
fn technique_must_stand_before_a_top_level_input() {
    assert_eq!(kind_of("B <charge>, F, P"), Some(ParseErrorKind::MisplacedTechnique));
    assert_eq!(kind_of("<charge> B, F, P"), None);
    let game = game_fixture();
    let error = Sequence::parse("B <charge>, F, P", &game, &game).unwrap_err();
    assert_eq!(error.text(), "charge");
}

#[test]
fn technique_given_twice_is_refused() {
    assert_eq!(kind_of("<charge> B <tap>"), Some(ParseErrorKind::MisplacedTechnique));
    let game = game_fixture();
    let error = Sequence::parse("<charge> B <tap>", &game, &game).unwrap_err();
    assert_eq!(error.text(), "tap");
}

#[test]
fn unknown_technique_is_refused() {
    let game = game_fixture();
    let error = Sequence::parse("<error> B, F, P", &game, &game).unwrap_err();
    assert_eq!(error.kind(), ParseErrorKind::UnknownTechnique);
    assert_eq!(error.text(), "error");
}

#[test]
fn combination_with_closing_note() {
    let game = game_fixture();
    let sequence = Sequence::parse("D+P2 (hold P2)", &game, &game).unwrap();
    let expected = Sequence::new(vec![Entry::Combination(CombinationEntry::new(
        vec![
            CombinationItem::Symbol(Symbol::from("D")),
            CombinationItem::Symbol(Symbol::from("P2")),
        ],
        None,
        None,
        Some(String::from("hold P2")),
    ))]);
    assert_eq!(sequence, expected);
    assert_eq!(sequence.to_string(), "D + P2 (hold P2)");
}

#[test]
fn group_inside_a_combination() {
    let game = game_fixture();
    let sequence = Sequence::parse("B + [ P1, P2, P3 ]", &game, &game).unwrap();
    let expected = Sequence::new(vec![Entry::Combination(CombinationEntry::new(
        vec![
            CombinationItem::Symbol(Symbol::from("B")),
            CombinationItem::Group(GroupEntry::new(
                vec![
                    InputEntry::for_symbol("P1"),
                    InputEntry::for_symbol("P2"),
                    InputEntry::for_symbol("P3"),
                ],
                None,
                None,
                None,
            )),
        ],
        None,
        None,
        None,
    ))]);
    assert_eq!(sequence, expected);
}

#[test]
fn group_with_a_technique() {
    let game = game_fixture();
    let sequence = Sequence::parse("<quick> [ P2, K3, P1 ]", &game, &game).unwrap();
    let expected = Sequence::new(vec![Entry::Group(GroupEntry::new(
        vec![
            InputEntry::for_symbol("P2"),
            InputEntry::for_symbol("K3"),
            InputEntry::for_symbol("P1"),
        ],
        Some(Technique::Quick),
        None,
        None,
    ))]);
    assert_eq!(sequence, expected);
    assert_eq!(sequence.to_string(), "<quick> [ P2, K3, P1 ]");
}

#[test]
fn context_between_entries() {
    let game = game_fixture();
    let sequence = Sequence::parse("QCF, P {juggle, exceptional} K3", &game, &game).unwrap();
    let expected = Sequence::new(vec![
        InputEntry::for_symbol("QCF"),
        InputEntry::for_symbol("P"),
        Entry::Context(vec![Context::Juggle, Context::Custom(String::from("exceptional"))]),
        InputEntry::for_symbol("K3"),
    ]);
    assert_eq!(sequence, expected);
    assert_eq!(sequence.to_string(), "QCF, P {juggle, exceptional} K3");
}

#[test]
fn context_at_either_end() {
    assert_eq!(canonical("{air} A, B"), "{air} A, B");
    assert_eq!(canonical("A, B {air}"), "A, B {air}");
    assert_eq!(canonical("A{air}{close}B"), "A {air} {close} B");
    assert_eq!(canonical("[ A {juggle} B ], C"), "[ A {juggle} B ], C");
}

#[test]
fn nesting_has_a_ceiling() {
    // a sequence, a group in it, a group in that group: three levels
    assert_eq!(kind_of("[ [ A ] ]"), None);
    assert_eq!(canonical("[[A]]"), "[ [ A ] ]");
    // one more level
    assert_eq!(kind_of("[ [ [ A ] ] ]"), Some(ParseErrorKind::RecursionLimitExceeded));
    let game = game_fixture();
    let error = Sequence::parse("[ [ [ A ] ] ]", &game, &game).unwrap_err();
    assert_eq!(error.text(), "A");
}

#[test]
fn splitter_takes_context_blocks_apart_on_request() {
    assert_eq!(split_char(',', true, "A, B, {air} C").unwrap(), vec!["A", "B", "{air}", "C"]);
    assert_eq!(split_char(',', false, "A, B, {air} C").unwrap(), vec!["A", "B", "{air} C"]);
}

#[test]
fn splitter_keeps_nested_text_together() {
    assert_eq!(
        split_char(',', true, "A, [B, C], (x, y) D").unwrap(),
        vec!["A", "[B, C]", "(x, y) D"]
    );
    assert_eq!(split_char(',', true, "[A {air, close} B], C").unwrap(), vec!["[A {air, close} B]", "C"]);
    assert_eq!(split_char('+', false, "A + [B + C]").unwrap(), vec!["A", "[B + C]"]);
    assert_eq!(split_char(',', true, "").unwrap(), Vec::<&str>::new());
    assert_eq!(split_char(',', true, "A,").unwrap(), vec!["A"]);
    assert_eq!(split_char(',', true, "P{juggle}").unwrap(), vec!["P", "{juggle}"]);
}

#[test]
fn splitter_refuses_malformed_text() {
    let refused = vec![
        "A,,B", "A, ,B", ",A", "A, {air}, B", "A, {a{b}}", "A}", "}", "{air", "A, (B", "A), B",
        "[A", "A]", "((A)",
    ];
    for text in refused {
        let error = split_char(',', true, text).unwrap_err();
        assert_eq!(error.kind(), ParseErrorKind::MalformedNotation, "{}", text);
        assert_eq!(error.text(), text);
    }
    assert!(split_char('+', false, "A + {b").is_err());
    assert!(split_char('+', false, "A + b}").is_err());
    assert!(split_char('+', false, "A ++ B").is_err());
}

#[test]
fn unbalanced_text_is_malformed() {
    let refused = vec![
        "[", "]", "(", ")", "{", "}", "A, [B, C", "A, B]", "(note A", "note) A", "A {air",
        "A air}", "A + [B", "<tap> [ A, B", "{air} [ ( A ]",
    ];
    for text in refused {
        assert_eq!(kind_of(text), Some(ParseErrorKind::MalformedNotation), "{}", text);
    }
}

#[test]
fn each_refusal_has_its_kind() {
    assert_eq!(kind_of("A,,B"), Some(ParseErrorKind::MalformedNotation));
    assert_eq!(kind_of("A B"), Some(ParseErrorKind::InvalidEntry));
    assert_eq!(kind_of("A-B"), Some(ParseErrorKind::InvalidEntry));
    assert_eq!(kind_of("A + !"), Some(ParseErrorKind::InvalidCombinationItem));
    assert_eq!(kind_of("A {foo} B"), Some(ParseErrorKind::UnknownContext));
    assert_eq!(kind_of("<slow> A"), Some(ParseErrorKind::UnknownTechnique));
    assert_eq!(kind_of("A <tap>"), Some(ParseErrorKind::MisplacedTechnique));
    assert_eq!(kind_of("[[[A]]]"), Some(ParseErrorKind::RecursionLimitExceeded));
    let game = game_fixture();
    assert_eq!(Sequence::parse("A, B C, D", &game, &game).unwrap_err().text(), "B C");
    assert_eq!(Sequence::parse("A + !", &game, &game).unwrap_err().text(), "!");
    assert_eq!(Sequence::parse("A { foo } B", &game, &game).unwrap_err().text(), "foo");
    // a token that is no entry is reported with the text in which it stands
    let error = Sequence::parse("A, B C, D", &game, &game).unwrap_err();
    assert_eq!(error.enclosing(), Some("A, B C, D"));
    let error = Sequence::parse("A, [ B, C D ]", &game, &game).unwrap_err();
    assert_eq!(error.text(), "C D");
    assert_eq!(error.enclosing(), Some("B, C D"));
    let error = Sequence::parse("X, (n) A + ! (m)", &game, &game).unwrap_err();
    assert_eq!(error.text(), "!");
    assert_eq!(error.enclosing(), Some("(n) A + ! (m)"));
    // the other refusals come with the offending text alone
    for text in ["A,,B", "A {foo} B", "<slow> A", "A <tap>", "[[[A]]]"] {
        assert_eq!(Sequence::parse(text, &game, &game).unwrap_err().enclosing(), None);
    }
}

#[test]
fn group_beats_combination_beats_input() {
    let game = game_fixture();
    // brackets and a plus sign: a group where the group shape fits
    let sequence = Sequence::parse("[ A + B ]", &game, &game).unwrap();
    let expected = Sequence::new(vec![Entry::Group(GroupEntry::new(
        vec![CombinationEntry::for_symbols(vec!["A", "B"])],
        None,
        None,
        None,
    ))]);
    assert_eq!(sequence, expected);
    // and a combination where it does not
    let sequence = Sequence::parse("[ A ] + B", &game, &game).unwrap();
    let expected = Sequence::new(vec![Entry::Combination(CombinationEntry::new(
        vec![
            CombinationItem::Group(GroupEntry::new(
                vec![InputEntry::for_symbol("A")],
                None,
                None,
                None,
            )),
            CombinationItem::Symbol(Symbol::from("B")),
        ],
        None,
        None,
        None,
    ))]);
    assert_eq!(sequence, expected);
}

#[test]
fn note_that_stands_alone() {
    let game = game_fixture();
    let sequence = Sequence::parse("A, ( wait a moment ), B", &game, &game).unwrap();
    let expected = Sequence::new(vec![
        InputEntry::for_symbol("A"),
        Entry::Note(String::from("wait a moment")),
        InputEntry::for_symbol("B"),
    ]);
    assert_eq!(sequence, expected);
    assert_eq!(sequence.to_string(), "A, (wait a moment), B");
}

#[test]
fn input_with_a_note_on_either_side() {
    let game = game_fixture();
    let sequence = Sequence::parse("(early) <tap> A (late)", &game, &game).unwrap();
    let expected = Sequence::new(vec![Entry::Input(InputEntry::new(
        Symbol::from("A"),
        Some(Technique::Tap),
        Some(String::from("early")),
        Some(String::from("late")),
    ))]);
    assert_eq!(sequence, expected);
    assert_eq!(sequence.to_string(), "(early) <tap> A (late)");
}

#[test]
fn technique_of_a_group_in_a_combination() {
    let game = game_fixture();
    // behind the first member
    let sequence = Sequence::parse("[ A, B ] <tap> + C", &game, &game).unwrap();
    let expected = Sequence::new(vec![Entry::Combination(CombinationEntry::new(
        vec![
            CombinationItem::Group(GroupEntry::new(
                vec![InputEntry::for_symbol("A"), InputEntry::for_symbol("B")],
                Some(Technique::Tap),
                None,
                None,
            )),
            CombinationItem::Symbol(Symbol::from("C")),
        ],
        None,
        None,
        None,
    ))]);
    assert_eq!(sequence, expected);
    assert_eq!(sequence.to_string(), "[ A, B ] <tap> + C");
    // before every other member
    assert_eq!(canonical("C + <tap> [ A, B ]"), "C + <tap> [ A, B ]");
    assert_eq!(kind_of("C + [ A, B ] <tap>"), Some(ParseErrorKind::MisplacedTechnique));
    // a bare symbol takes none
    assert_eq!(kind_of("C + <tap> A"), Some(ParseErrorKind::MisplacedTechnique));
}

#[test]
fn printed_sequences_read_back() {
    let game = game_fixture();
    let sequences = vec![
        Sequence::new(vec![]),
        Sequence::new(vec![InputEntry::for_symbol("A")]),
        Sequence::new(vec![
            Entry::Context(vec![Context::Air, Context::Mid]),
            Entry::Input(InputEntry::new(
                Symbol::from("QCF"),
                Some(Technique::Charge),
                Some(String::from("first")),
                Some(String::from("then")),
            )),
            Entry::Note(String::from("pause")),
            Entry::Group(GroupEntry::new(
                vec![
                    InputEntry::for_symbol("P1"),
                    Entry::Context(vec![Context::Custom(String::from("exceptional"))]),
                    Entry::Group(GroupEntry::new(
                        vec![InputEntry::for_symbol("K1"), InputEntry::for_symbol("K2")],
                        Some(Technique::Tap),
                        None,
                        Some(String::from("fast")),
                    )),
                ],
                Some(Technique::Quick),
                Some(String::from("combo")),
                None,
            )),
            Entry::Combination(CombinationEntry::new(
                vec![
                    CombinationItem::Group(GroupEntry::new(
                        vec![InputEntry::for_symbol("D"), InputEntry::for_symbol("F")],
                        Some(Technique::Quick),
                        None,
                        None,
                    )),
                    CombinationItem::Group(GroupEntry::new(
                        vec![InputEntry::for_symbol("U")],
                        Some(Technique::Tap),
                        None,
                        None,
                    )),
                    CombinationItem::Symbol(Symbol::from("P2")),
                ],
                Some(Technique::Charge),
                None,
                Some(String::from("hold")),
            )),
            Entry::Context(vec![Context::Far, Context::Ground, Context::Sweep, Context::Close]),
        ]),
    ];
    for sequence in sequences {
        let text = sequence.to_string();
        let read = Sequence::parse(&text, &game, &game);
        assert!(read.is_ok(), "{} :: {:?}", text, read);
        assert_eq!(read.unwrap(), sequence, "{}", text);
    }
}

#[test]
fn canonical_text_is_stable() {
    let texts = vec![
        "(Air)B,F,P1",
        "D+P2 (hold P2)",
        "F+K1+K2",
        "B+K2, ALT, (wait until Alt's last hit) D, F, P3",
        "<charge>B,F,P",
        "B+[P1,P2,P3]",
        "<quick>[P2,K3,P1]",
        "QCF,P{juggle,exceptional}K3",
        "{ air , mid }A,( note ),[ [ B ] ]",
    ];
    for text in texts {
        let once = canonical(text);
        let twice = canonical(&once);
        assert_eq!(once, twice, "{}", text);
    }
    assert_eq!(canonical("(Air)B,F,P1"), "(Air) B, F, P1");
    assert_eq!(canonical("QCF,P{juggle,exceptional}K3"), "QCF, P {juggle, exceptional} K3");
    assert_eq!(canonical("{ air , mid }A,( note ),[ [ B ] ]"), "{air, mid} A, (note), [ [ B ] ]");
}

#[test]
fn entries_are_printed_by_their_place() {
    let tapped = Entry::Input(InputEntry::new(Symbol::from("A"), Some(Technique::Tap), None, None));
    assert_eq!(entry_to_string(&tapped, 0, IndexPosition::Only), "<tap> A");
    assert_eq!(entry_to_string(&tapped, 1, IndexPosition::First), "A <tap>");
    assert_eq!(entry_to_string(&tapped, 1, IndexPosition::Middle), "<tap> A");
    assert_eq!(entry_to_string(&tapped, 1, IndexPosition::Last), "<tap> A");
    let entries = vec![
        Entry::Input(InputEntry::new(Symbol::from("A"), Some(Technique::Tap), None, None)),
        Entry::Input(InputEntry::new(Symbol::from("B"), Some(Technique::Tap), None, None)),
    ];
    assert_eq!(entries_to_string(&entries, 0), "<tap> A, <tap> B");
    assert_eq!(entries_to_string(&entries, 1), "A <tap>, <tap> B");
    assert_eq!(entries_to_string(&entries, i32::MAX), "A <tap>, <tap> B");
    assert_eq!(entries_to_string(&entries, -1), "A <tap>, <tap> B");
    // one level above the outermost, a group holds the outermost level
    let group = vec![Entry::Group(GroupEntry::new(
        vec![
            Entry::Input(InputEntry::new(Symbol::from("A"), Some(Technique::Tap), None, None)),
            Entry::Input(InputEntry::new(Symbol::from("B"), Some(Technique::Tap), None, None)),
        ],
        None,
        None,
        None,
    ))];
    assert_eq!(entries_to_string(&group, -1), "[ <tap> A, <tap> B ]");
    assert_eq!(entries_to_string(&group, 0), "[ A <tap>, <tap> B ]");
    assert_eq!(entries_to_string(&group, i32::MAX), "[ A <tap>, <tap> B ]");
}

#[test]
fn token_between_brackets_is_a_group() {
    let game = game_fixture();
    // what begins and ends with a bracket is offered to the group reader
    // first, and that reader takes it whole
    let error = Sequence::parse("[ A ] + [ B ]", &game, &game).unwrap_err();
    assert_eq!(error.kind(), ParseErrorKind::InvalidCombinationItem);
    assert_eq!(error.text(), "A ] + [ B");
}

#[test]
fn what_reading_refuses_is_still_written() {
    let game = game_fixture();
    // a technique on an input inside a group
    let sequence = Sequence::new(vec![Entry::Group(GroupEntry::new(
        vec![
            InputEntry::for_symbol("A"),
            Entry::Input(InputEntry::new(Symbol::from("B"), Some(Technique::Tap), None, None)),
        ],
        None,
        None,
        None,
    ))]);
    assert_eq!(sequence.to_string(), "[ A, <tap> B ]");
    assert_eq!(kind_of("[ A, <tap> B ]"), Some(ParseErrorKind::MisplacedTechnique));
    // a technique on the group that comes first in a group: written behind it,
    // read before it
    let sequence = Sequence::new(vec![Entry::Group(GroupEntry::new(
        vec![Entry::Group(GroupEntry::new(
            vec![InputEntry::for_symbol("A")],
            Some(Technique::Tap),
            None,
            None,
        ))],
        None,
        None,
        None,
    ))]);
    assert_eq!(sequence.to_string(), "[ [ A ] <tap> ]");
    assert_eq!(kind_of("[ [ A ] <tap> ]"), Some(ParseErrorKind::MisplacedTechnique));
    assert_eq!(canonical("[ <tap> [ A ] ]"), "[ [ A ] <tap> ]");
    // a custom context that goes by a predefined tag
    let sequence = Sequence::new(vec![Entry::Context(vec![Context::Custom(String::from("air"))])]);
    assert_eq!(sequence.to_string(), "{air}");
    assert_eq!(
        Sequence::parse("{air}", &game, &game).unwrap(),
        Sequence::new(vec![Entry::Context(vec![Context::Air])])
    );
    // a combination of one
    let sequence = Sequence::new(vec![CombinationEntry::for_symbols(vec!["A"])]);
    assert_eq!(sequence.to_string(), "A");
    assert_eq!(
        Sequence::parse("A", &game, &game).unwrap(),
        Sequence::new(vec![InputEntry::for_symbol("A")])
    );
    // a note with a parenthesis of its own
    let sequence = Sequence::new(vec![Entry::Note(String::from("a) (b"))]);
    assert_eq!(sequence.to_string(), "(a) (b)");
    assert_eq!(kind_of("(a) (b)"), Some(ParseErrorKind::InvalidEntry));
}

/// A sequence of numbers that looks random and is the same on every run.
struct Numbers {
    state: u64,
}

impl Numbers {
    fn next(&mut self, below: u64) -> u64 {
        self.state = self.state.wrapping_mul(6364136223846793005).wrapping_add(1442695040888963407);
        (self.state >> 33) % below
    }

    fn chance(&mut self, one_in: u64) -> bool {
        self.next(one_in) == 0
    }

    fn symbol(&mut self) -> Symbol {
        let symbols = ["A", "B", "QCF", "P1", "2K", "x9", "Z", "UF", "0", "BLK"];
        Symbol::from(symbols[self.next(symbols.len() as u64) as usize])
    }

    fn note(&mut self) -> Option<String> {
        let notes = ["hold", "wait a bit", "a, b", "late; fast", "1/2", "<soon>", "x > y", "é!"];
        if self.chance(3) {
            Some(String::from(notes[self.next(notes.len() as u64) as usize]))
        } else {
            None
        }
    }

    fn technique(&mut self, allowed: bool) -> Option<Technique> {
        if allowed && self.chance(2) {
            Some([Technique::Charge, Technique::Tap, Technique::Quick][self.next(3) as usize])
        } else {
            None
        }
    }

    fn contexts(&mut self) -> Vec<Context> {
        let mut contexts = Vec::new();
        let count = 1 + self.next(3);
        for _ in 0..count {
            contexts.push(match self.next(8) {
                0 => Context::Air,
                1 => Context::Ground,
                2 => Context::Juggle,
                3 => Context::Close,
                4 => Context::Sweep,
                5 => Context::Mid,
                6 => Context::Far,
                _ => Context::Custom(String::from("exceptional")),
            });
        }
        contexts
    }

    /// A group at depth `level` whose technique may stand on the side
    /// `opening` (before it) or behind it, as its place says.
    fn group(&mut self, level: i32, allowed: bool, side_is_opening: bool) -> GroupEntry {
        let count = self.next(4) as usize;
        let entries = self.entries(level + 1, count, side_is_opening);
        GroupEntry::new(entries, self.technique(allowed), self.note(), self.note())
    }

    fn combination(&mut self, level: i32) -> CombinationEntry {
        let count = 2 + self.next(3) as usize;
        let technique = self.technique(level == 0);
        let mut items = Vec::new();
        let mut first_is_group = false;
        for index in 0..count {
            let last = index + 1 == count;
            // what begins with a bracket or a technique and ends with a
            // bracket may be taken for a group
            let may_be_group =
                level + 1 < 3 && !(last && (first_is_group || technique.is_some()));
            if may_be_group && self.chance(3) {
                if index == 0 {
                    first_is_group = true;
                }
                // behind the first member, before every other
                let mut group = self.group(level, true, index != 0);
                // a note at either end of the members would be read as the
                // note of the combination
                if index == 0 {
                    group.opening_note = None;
                }
                if last {
                    group.closing_note = None;
                }
                items.push(CombinationItem::Group(group));
            } else {
                items.push(CombinationItem::Symbol(self.symbol()));
            }
        }
        CombinationEntry::new(items, technique, self.note(), self.note())
    }

    fn entries(&mut self, level: i32, count: usize, side_is_opening: bool) -> Vec<Entry> {
        let mut entries = Vec::new();
        for index in 0..count {
            // where a technique is written: behind the first of several
            // entries below the outermost level, before every other entry
            let written_before = level == 0 || index != 0;
            let kind = self.next(if level + 1 < 3 { 5 } else { 4 });
            entries.push(match kind {
                0 => Entry::Note(String::from(["", "pause", "a, b + c", "now!"][self.next(4) as usize])),
                1 => Entry::Context(self.contexts()),
                2 => Entry::Input(InputEntry::new(
                    self.symbol(),
                    self.technique(level == 0),
                    self.note(),
                    self.note(),
                )),
                3 => Entry::Combination(self.combination(level)),
                _ => Entry::Group(self.group(level, written_before == side_is_opening, side_is_opening)),
            });
        }
        entries
    }
}

#[test]
fn sound_sequences_read_back() {
    let game = game_fixture();
    let mut numbers = Numbers { state: 2023 };
    for round in 0..400 {
        let count = numbers.next(6) as usize;
        let sequence = Sequence::new(numbers.entries(0, count, true));
        let text = sequence.to_string();
        let read = Sequence::parse(&text, &game, &game);
        assert!(read.is_ok(), "round {}: {} :: {:?}", round, text, read);
        let read = read.unwrap();
        assert!(read == sequence, "round {}: {} -> {}", round, text, read.to_string());
        assert_eq!(read.to_string(), text, "round {}", round);
    }
}
