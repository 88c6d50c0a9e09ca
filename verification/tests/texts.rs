use chrono::NaiveDate;
use fgcd_model::game::{Game, Profile};
use fgcd_model::input::error::{ParseError, ParseErrorKind};
use fgcd_model::input::parse::{
    combination_from_parts, group_from_parts, input_from_parts, parse_combination_item,
    parse_entries, parse_entry, parse_marks, parse_technique_captures, resolve_context,
    try_parse_combination_entry, try_parse_group_entry, try_parse_input_entry,
    try_parse_note_entry, TokenPosition, MAX_RECURSION,
};
use fgcd_model::input::print::{contexts_to_string, entry_trait_to_string, IndexPosition};
use fgcd_model::input::shape::{Parts, COMBINATION_SHAPE, GROUP_SHAPE, INPUT_SHAPE};
use fgcd_model::input::{CombinationItem, Context, Entry, GroupEntry, InputEntry, Technique};
use fgcd_model::GameSubmodel;
use fgcd_model::text::{
    chars_of, contains, field_bounds, holds, is_whitespace, same_text, strip_ends, trim,
    trim_bounds,
};

fn registry_of(contexts: Vec<Context>) -> Game {
    Game::new(
        Profile::new(
            String::from("Ternary Op 3"),
            String::from("Asmov LLC"),
            String::from("Asmov"),
            NaiveDate::from_ymd_opt(2023, 10, 4).unwrap(),
            String::from("https://asmov.software"),
            String::from("https://en.wikipedia.org/wiki/Ternary_conditional_operator"),
            vec![String::from("Linux")],
        ),
        vec![],
        vec![],
        vec![],
        contexts,
        vec![],
        vec![],
        vec![],
        GameSubmodel::Generic,
    )
}

fn registry() -> Game {
    registry_of(vec![Context::Custom(String::from("exceptional"))])
}

fn parts(
    opening_note: Option<&str>,
    opening_technique: Option<&str>,
    body: &str,
    closing_technique: Option<&str>,
    closing_note: Option<&str>,
) -> Parts {
    Parts {
        opening_note: opening_note.map(String::from),
        opening_technique: opening_technique.map(String::from),
        body: String::from(body),
        closing_technique: closing_technique.map(String::from),
        closing_note: closing_note.map(String::from),
    }
}

#[test]
fn white_space_is_what_the_standard_library_calls_so() {
    let mut code: u32 = 0;
    while code <= 0x10FFFF {
        if let Some(c) = char::from_u32(code) {
            assert_eq!(is_whitespace(c), c.is_whitespace(), "U+{:04X}", code);
        }
        code += 1;
    }
}

#[test]
fn trimming_is_what_the_standard_library_does() {
    let texts = vec![
        "", " ", "a", " a", "a ", "  a b  ", "\t\n a \r\n", "\u{a0}x\u{3000}", "\u{2003}",
        "é ", " 日本 ",
    ];
    for text in texts {
        assert_eq!(trim(text), text.trim(), "{:?}", text);
    }
    let chars = chars_of("ab  cd  ");
    assert_eq!(trim_bounds(&chars, 0, 8), (0, 6));
    assert_eq!(trim_bounds(&chars, 2, 8), (4, 6));
    assert_eq!(trim_bounds(&chars, 2, 4), (4, 4));
    assert_eq!(trim_bounds(&chars, 3, 3), (3, 3));
}

#[test]
fn characters_are_counted_not_bytes() {
    assert_eq!(chars_of("aé日"), vec!['a', 'é', '日']);
    assert_eq!(chars_of(""), Vec::<char>::new());
    assert_eq!(strip_ends("(é)"), "é");
    assert_eq!(strip_ends("日本語"), "本");
    assert_eq!(strip_ends("ab"), "");
    assert_eq!(strip_ends("a"), "");
    assert_eq!(strip_ends(""), "");
    assert!(contains(&chars_of("a+b"), '+'));
    assert!(!contains(&chars_of("a-b"), '+'));
    assert!(!contains(&chars_of(""), '+'));
}

#[test]
fn texts_are_compared_by_their_characters() {
    assert!(same_text("", ""));
    assert!(same_text("tap", "tap"));
    assert!(!same_text("tap", "ta"));
    assert!(!same_text("ta", "tap"));
    assert!(!same_text("tap", "tab"));
    assert!(!same_text("tap", "Tap"));
    assert!(same_text("日本", "日本"));
    assert!(holds("ab", &vec!['a', 'b']));
    assert!(!holds("ab", &vec!['a']));
    assert!(!holds("a", &vec!['a', 'b']));
    assert!(!holds("ab", &vec!['a', 'c']));
}

#[test]
fn fields_lie_between_separators() {
    let chars = chars_of("a,bc,,d");
    assert_eq!(field_bounds(&chars, ','), vec![(0, 1), (2, 4), (5, 5), (6, 7)]);
    assert_eq!(field_bounds(&chars_of(""), ','), vec![(0, 0)]);
    assert_eq!(field_bounds(&chars_of(","), ','), vec![(0, 0), (1, 1)]);
    assert_eq!(field_bounds(&chars_of("abc"), ','), vec![(0, 3)]);
    let text = "x, y ,z";
    let fields: Vec<&str> = text.split(',').collect();
    let chars = chars_of(text);
    let bounds = field_bounds(&chars, ',');
    assert_eq!(bounds.len(), fields.len());
    for (bound, field) in bounds.iter().zip(fields) {
        assert_eq!(&text[bound.0..bound.1], field);
    }
}

#[test]
fn shapes_take_tokens_apart() {
    assert_eq!(
        Parts::of_shape(INPUT_SHAPE, "(early) <tap> A (late)"),
        Some(parts(Some("(early)"), Some("<tap>"), "A", None, Some("(late)")))
    );
    assert_eq!(
        Parts::of_shape(INPUT_SHAPE, "QCF<charge>"),
        Some(parts(None, None, "QCF", Some("<charge>"), None))
    );
    assert_eq!(Parts::of_shape(INPUT_SHAPE, "A B"), None);
    assert_eq!(Parts::of_shape(INPUT_SHAPE, ""), None);
    assert_eq!(Parts::of_shape(INPUT_SHAPE, "() A"), None);
    assert_eq!(
        Parts::of_shape(GROUP_SHAPE, "(n) <quick> [ A, [ B ] ] (m)"),
        Some(parts(Some("(n)"), Some("<quick>"), "[ A, [ B ] ]", None, Some("(m)")))
    );
    assert_eq!(
        Parts::of_shape(GROUP_SHAPE, "[ A ] + [ B ]"),
        Some(parts(None, None, "[ A ] + [ B ]", None, None))
    );
    assert_eq!(Parts::of_shape(GROUP_SHAPE, "[ A ] + B"), None);
    assert_eq!(Parts::of_shape(GROUP_SHAPE, "[]"), None);
    assert_eq!(
        Parts::of_shape(COMBINATION_SHAPE, "<tap> A + [ B ] <quick> (m)"),
        Some(parts(None, Some("<tap>"), "A + [ B ]", Some("<quick>"), Some("(m)")))
    );
    // what is no regular expression has no parts
    assert_eq!(Parts::of_shape("(", "("), None);
    // a shape has five capture groups
    assert_eq!(Parts::of_shape("^(a)(b)$", "ab"), None);
}

#[test]
fn capture_groups_get_their_names() {
    let some = |text: &str| Some(String::from(text));
    let groups = vec![some("whole"), some("(n)"), None, some("A"), some("<tap>"), None];
    assert_eq!(
        Parts::from_groups(&groups),
        Some(parts(Some("(n)"), None, "A", Some("<tap>"), None))
    );
    // the body has to be there
    let groups = vec![some("whole"), some("(n)"), None, None, some("<tap>"), None];
    assert_eq!(Parts::from_groups(&groups), None);
    // and so have all five groups
    let groups = vec![some("whole"), some("(n)"), None, some("A"), some("<tap>")];
    assert_eq!(Parts::from_groups(&groups), None);
    assert_eq!(Parts::from_groups(&vec![]), None);
}

#[test]
fn technique_is_settled_from_its_markers() {
    let (opening, closing, disallowed) =
        (TokenPosition::OPENING, TokenPosition::CLOSING, TokenPosition::DISALLOWED);
    let kind = |result: Result<Option<Technique>, ParseError>| result.unwrap_err().kind();
    for position in [opening, closing, disallowed] {
        assert_eq!(parse_technique_captures(None, None, position).unwrap(), None);
        assert_eq!(
            kind(parse_technique_captures(Some("<tap>"), Some("<quick>"), position)),
            ParseErrorKind::MisplacedTechnique
        );
        assert_eq!(
            kind(parse_technique_captures(Some("<tap>"), Some("<knock>"), position)),
            ParseErrorKind::UnknownTechnique
        );
        assert_eq!(
            kind(parse_technique_captures(Some("<knock>"), None, position)),
            ParseErrorKind::UnknownTechnique
        );
    }
    assert_eq!(
        parse_technique_captures(Some("<tap>"), None, opening).unwrap(),
        Some(Technique::Tap)
    );
    assert_eq!(
        parse_technique_captures(None, Some("<charge>"), closing).unwrap(),
        Some(Technique::Charge)
    );
    assert_eq!(
        kind(parse_technique_captures(None, Some("<tap>"), opening)),
        ParseErrorKind::MisplacedTechnique
    );
    assert_eq!(
        kind(parse_technique_captures(Some("<tap>"), None, closing)),
        ParseErrorKind::MisplacedTechnique
    );
    assert_eq!(
        kind(parse_technique_captures(Some("<tap>"), None, disallowed)),
        ParseErrorKind::MisplacedTechnique
    );
    assert_eq!(
        kind(parse_technique_captures(None, Some("<tap>"), disallowed)),
        ParseErrorKind::MisplacedTechnique
    );
    // the first unknown name is the one that is reported
    let error = parse_technique_captures(Some("<a>"), Some("<b>"), opening).unwrap_err();
    assert_eq!(error.text(), "a");
    // of two techniques, the second is the one too many
    let error = parse_technique_captures(Some("<tap>"), Some("<quick>"), opening).unwrap_err();
    assert_eq!(error.text(), "quick");
    assert_eq!(TokenPosition::default(), opening);
}

#[test]
fn marks_are_settled_from_parts() {
    let marks = parse_marks(
        &parts(Some("( a b )"), Some("<tap>"), "A", None, Some("(c)")),
        TokenPosition::OPENING,
    )
    .unwrap();
    assert_eq!(marks.technique, Some(Technique::Tap));
    assert_eq!(marks.opening_note, Some(String::from("a b")));
    assert_eq!(marks.closing_note, Some(String::from("c")));
    let marks = parse_marks(&parts(None, None, "A", None, None), TokenPosition::DISALLOWED).unwrap();
    assert_eq!(marks.technique, None);
    assert_eq!(marks.opening_note, None);
    assert_eq!(marks.closing_note, None);
    assert!(parse_marks(&parts(None, Some("<tap>"), "A", None, None), TokenPosition::CLOSING)
        .is_err());
}

#[test]
fn input_is_built_from_parts() {
    let input =
        input_from_parts(&parts(Some("(n)"), Some("<tap>"), "A", None, Some("( m )")), false)
            .unwrap();
    assert_eq!(
        input,
        InputEntry::new(
            String::from("A"),
            Some(Technique::Tap),
            Some(String::from("n")),
            Some(String::from("m"))
        )
    );
    let error = input_from_parts(&parts(None, Some("<tap>"), "A", None, None), true).unwrap_err();
    assert_eq!(error.kind(), ParseErrorKind::MisplacedTechnique);
    let error = input_from_parts(&parts(None, None, "A", Some("<tap>"), None), false).unwrap_err();
    assert_eq!(error.kind(), ParseErrorKind::MisplacedTechnique);
    assert_eq!(
        input_from_parts(&parts(None, None, "A", None, None), true).unwrap(),
        InputEntry::new(String::from("A"), None, None, None)
    );
}

#[test]
fn group_is_built_from_parts() {
    let registry = registry();
    let group = group_from_parts(
        &parts(None, None, "[ (x), {air, exceptional} ]", Some("<tap>"), Some("(m)")),
        &registry,
        &registry,
        0,
        TokenPosition::CLOSING,
    )
    .unwrap();
    assert_eq!(
        group,
        GroupEntry::new(
            vec![
                Entry::Note(String::from("x")),
                Entry::Context(vec![Context::Air, Context::Custom(String::from("exceptional"))]),
            ],
            Some(Technique::Tap),
            None,
            Some(String::from("m"))
        )
    );
    // the technique is looked at before the entries
    let error = group_from_parts(
        &parts(None, Some("<tap>"), "[ {foo} ]", None, None),
        &registry,
        &registry,
        0,
        TokenPosition::CLOSING,
    )
    .unwrap_err();
    assert_eq!(error.kind(), ParseErrorKind::MisplacedTechnique);
    let error = group_from_parts(
        &parts(None, Some("<tap>"), "[ {foo} ]", None, None),
        &registry,
        &registry,
        0,
        TokenPosition::OPENING,
    )
    .unwrap_err();
    assert_eq!(error.kind(), ParseErrorKind::UnknownContext);
    assert_eq!(error.text(), "foo");
    // one level below the ceiling nothing more goes in
    let error = group_from_parts(
        &parts(None, None, "[ (x) ]", None, None),
        &registry,
        &registry,
        MAX_RECURSION - 1,
        TokenPosition::OPENING,
    )
    .unwrap_err();
    assert_eq!(error.kind(), ParseErrorKind::RecursionLimitExceeded);
    assert_eq!(error.text(), "(x)");
    assert!(group_from_parts(
        &parts(None, None, "[ (x) ]", None, None),
        &registry,
        &registry,
        i32::MAX,
        TokenPosition::OPENING,
    )
    .is_err());
    assert!(group_from_parts(
        &parts(None, None, "[ (x) ]", None, None),
        &registry,
        &registry,
        MAX_RECURSION - 2,
        TokenPosition::OPENING,
    )
    .is_ok());
}

#[test]
fn combination_is_built_from_parts() {
    let registry = registry();
    let combination = combination_from_parts(
        &parts(Some("(n)"), Some("<charge>"), "[ (x) ] <tap> + B", None, None),
        "(n) <charge> [ (x) ] <tap> + B",
        &registry,
        &registry,
        0,
    )
    .unwrap();
    assert_eq!(combination.technique, Some(Technique::Charge));
    assert_eq!(combination.opening_note, Some(String::from("n")));
    assert_eq!(
        combination.items,
        vec![
            CombinationItem::Group(GroupEntry::new(
                vec![Entry::Note(String::from("x"))],
                Some(Technique::Tap),
                None,
                None
            )),
            CombinationItem::Symbol(String::from("B")),
        ]
    );
    // below the outermost level a combination takes no technique
    let error = combination_from_parts(
        &parts(None, Some("<charge>"), "A + B", None, None),
        "<charge> A + B",
        &registry,
        &registry,
        1,
    )
    .unwrap_err();
    assert_eq!(error.kind(), ParseErrorKind::MisplacedTechnique);
    let error = combination_from_parts(
        &parts(None, None, "A + (B", None, None),
        "A + (B",
        &registry,
        &registry,
        0,
    )
    .unwrap_err();
    assert_eq!(error.kind(), ParseErrorKind::MalformedNotation);
    assert_eq!(error.text(), "A + (B");
    assert_eq!(error.enclosing(), None);
    let error = combination_from_parts(
        &parts(None, None, "A + B C", None, Some("(n)")),
        "A + B C (n)",
        &registry,
        &registry,
        0,
    )
    .unwrap_err();
    assert_eq!(error.kind(), ParseErrorKind::InvalidCombinationItem);
    assert_eq!(error.text(), "B C");
    assert_eq!(error.enclosing(), Some("A + B C (n)"));
}

#[test]
fn members_of_a_combination_are_read_by_their_place() {
    let registry = registry();
    assert_eq!(
        parse_combination_item("A", 0, "whole", &registry, &registry, 0).unwrap(),
        CombinationItem::Symbol(String::from("A"))
    );
    // the notes of a bare symbol are dropped
    assert_eq!(
        parse_combination_item("(n) A (m)", 1, "whole", &registry, &registry, 0).unwrap(),
        CombinationItem::Symbol(String::from("A"))
    );
    assert!(parse_combination_item("[ (x) ] <tap>", 0, "whole", &registry, &registry, 0).is_ok());
    assert!(parse_combination_item("[ (x) ] <tap>", 1, "whole", &registry, &registry, 0).is_err());
    assert!(parse_combination_item("<tap> [ (x) ]", 1, "whole", &registry, &registry, 0).is_ok());
    assert!(parse_combination_item("<tap> [ (x) ]", 0, "whole", &registry, &registry, 0).is_err());
    assert!(parse_combination_item("<tap> A", 1, "whole", &registry, &registry, 0).is_err());
}

#[test]
fn readers_answer_for_their_own_tokens_only() {
    let registry = registry();
    assert_eq!(try_parse_note_entry("(a note)").unwrap(), Some(String::from("a note")));
    assert_eq!(try_parse_note_entry("( (a) (b) )").unwrap(), Some(String::from("(a) (b)")));
    assert_eq!(try_parse_note_entry("()").unwrap(), Some(String::new()));
    assert_eq!(try_parse_note_entry("(a) B (c)").unwrap(), None);
    assert_eq!(try_parse_note_entry("(a) (b)").unwrap(), None);
    assert_eq!(try_parse_note_entry("(").unwrap(), None);
    assert_eq!(try_parse_note_entry(")(").unwrap(), None);
    assert_eq!(try_parse_note_entry("").unwrap(), None);
    assert_eq!(try_parse_note_entry("A").unwrap(), None);
    assert_eq!(try_parse_input_entry("A", true).unwrap().unwrap().symbol(), "A");
    assert_eq!(try_parse_input_entry("A+B", false).unwrap(), None);
    assert_eq!(try_parse_input_entry("[A]", false).unwrap(), None);
    assert!(try_parse_input_entry("<tap> A", true).is_err());
    assert_eq!(try_parse_group_entry("A", &registry, &registry, 0, TokenPosition::OPENING).unwrap(), None);
    assert_eq!(try_parse_group_entry("A [", &registry, &registry, 0, TokenPosition::OPENING).unwrap(), None);
    assert_eq!(try_parse_group_entry("] A [", &registry, &registry, 0, TokenPosition::OPENING).unwrap(), None);
    assert!(try_parse_group_entry("[ (x) ]", &registry, &registry, 0, TokenPosition::OPENING)
        .unwrap()
        .is_some());
    assert_eq!(try_parse_combination_entry("A", &registry, &registry, 0).unwrap(), None);
    assert!(try_parse_combination_entry("A + B", &registry, &registry, 0).unwrap().is_some());
    assert_eq!(
        parse_entry("( x )", "whole", &registry, &registry, 0, TokenPosition::OPENING).unwrap(),
        Entry::Note(String::from("x"))
    );
    assert_eq!(
        parse_entry("A", "whole", &registry, &registry, 2, TokenPosition::OPENING).unwrap(),
        InputEntry::for_symbol("A")
    );
    // below the outermost level an input takes no technique
    assert!(parse_entry("<tap> A", "whole", &registry, &registry, 0, TokenPosition::OPENING).is_ok());
    assert!(parse_entry("<tap> A", "whole", &registry, &registry, 1, TokenPosition::OPENING).is_err());
    // what no reader takes is refused together with the text around it
    let error =
        parse_entry("A B", "A B, C", &registry, &registry, 0, TokenPosition::OPENING).unwrap_err();
    assert_eq!(error.kind(), ParseErrorKind::InvalidEntry);
    assert_eq!(error.text(), "A B");
    assert_eq!(error.enclosing(), Some("A B, C"));
    let error = parse_combination_item("!", 1, "A + !", &registry, &registry, 0).unwrap_err();
    assert_eq!(error.kind(), ParseErrorKind::InvalidCombinationItem);
    assert_eq!(error.text(), "!");
    assert_eq!(error.enclosing(), Some("A + !"));
}

#[test]
fn entries_are_read_up_to_the_ceiling() {
    let registry = registry();
    for depth in [i32::MIN, -1, 0, 1, MAX_RECURSION - 1] {
        assert_eq!(
            parse_entries("(x), (y)", &registry, &registry, depth, TokenPosition::OPENING).unwrap(),
            vec![Entry::Note(String::from("x")), Entry::Note(String::from("y"))]
        );
    }
    for depth in [MAX_RECURSION, MAX_RECURSION + 1, i32::MAX] {
        let error = parse_entries("(x), (y)", &registry, &registry, depth, TokenPosition::OPENING)
            .unwrap_err();
        assert_eq!(error.kind(), ParseErrorKind::RecursionLimitExceeded);
        assert_eq!(error.text(), "(x), (y)");
    }
    assert_eq!(
        parse_entries("", &registry, &registry, 0, TokenPosition::OPENING).unwrap(),
        Vec::<Entry>::new()
    );
}

#[test]
fn context_tags_are_resolved_predefined_first() {
    let registry = registry_of(vec![
        Context::Custom(String::from("exceptional")),
        Context::Custom(String::from("air")),
    ]);
    assert_eq!(resolve_context("air", &registry).unwrap(), Context::Air);
    assert_eq!(
        resolve_context("exceptional", &registry).unwrap(),
        Context::Custom(String::from("exceptional"))
    );
    let error = resolve_context("Exceptional", &registry).unwrap_err();
    assert_eq!(error.kind(), ParseErrorKind::UnknownContext);
    assert_eq!(error.text(), "Exceptional");
}

#[test]
fn context_blocks_are_written_with_their_tags() {
    assert_eq!(contexts_to_string(&vec![]), "{}");
    assert_eq!(contexts_to_string(&vec![Context::Air]), "{air}");
    assert_eq!(
        contexts_to_string(&vec![
            Context::Air,
            Context::Custom(String::from("exceptional")),
            Context::Mid
        ]),
        "{air, exceptional, mid}"
    );
}

#[test]
fn marks_are_written_around_the_contents() {
    let entry = InputEntry::new(
        String::from("A"),
        Some(Technique::Charge),
        Some(String::from("before")),
        Some(String::from("after")),
    );
    assert_eq!(
        entry_trait_to_string(&entry, IndexPosition::Only, "body"),
        "(before) <charge> body (after)"
    );
    assert_eq!(
        entry_trait_to_string(&entry, IndexPosition::First, "body"),
        "(before) body <charge> (after)"
    );
    assert_eq!(
        entry_trait_to_string(&entry, IndexPosition::Last, "body"),
        "(before) <charge> body (after)"
    );
    let bare = InputEntry::new(String::from("A"), None, None, None);
    assert_eq!(entry_trait_to_string(&bare, IndexPosition::First, "body"), "body");
}

#[test]
fn places_among_siblings() {
    assert_eq!(IndexPosition::determine(0, 3, 0), IndexPosition::Only);
    assert_eq!(IndexPosition::determine(0, 3, 2), IndexPosition::Only);
    assert_eq!(IndexPosition::determine(1, 0, 0), IndexPosition::Only);
    assert_eq!(IndexPosition::determine(1, 3, 0), IndexPosition::First);
    assert_eq!(IndexPosition::determine(1, 3, 1), IndexPosition::Middle);
    assert_eq!(IndexPosition::determine(1, 3, 2), IndexPosition::Last);
    assert_eq!(IndexPosition::determine(2, 1, 0), IndexPosition::First);
    assert_eq!(IndexPosition::determine(-1, 2, 1), IndexPosition::Last);
    assert_eq!(IndexPosition::Only.technique_position(), TokenPosition::OPENING);
    assert_eq!(IndexPosition::First.technique_position(), TokenPosition::CLOSING);
    assert_eq!(IndexPosition::Middle.technique_position(), TokenPosition::OPENING);
    assert_eq!(IndexPosition::Last.technique_position(), TokenPosition::OPENING);
}

#[test]
fn shapes_take_written_entries_apart() {
    // an input, written with all that it can carry
    let input = Entry::Input(InputEntry::new(
        String::from("QCF"),
        Some(Technique::Charge),
        Some(String::from("first, then")),
        Some(String::from("at last")),
    ));
    let text = fgcd_model::input::print::entry_to_string(&input, 0, IndexPosition::Only);
    assert_eq!(text, "(first, then) <charge> QCF (at last)");
    assert_eq!(
        Parts::of_shape(INPUT_SHAPE, &text),
        Some(parts(Some("(first, then)"), Some("<charge>"), "QCF", None, Some("(at last)")))
    );
    // a group, as the first of its siblings
    let group = Entry::Group(GroupEntry::new(
        vec![
            Entry::Context(vec![Context::Air]),
            InputEntry::for_symbol("A"),
            Entry::Group(GroupEntry::new(
                vec![InputEntry::for_symbol("B")],
                Some(Technique::Tap),
                None,
                Some(String::from("twice")),
            )),
        ],
        Some(Technique::Quick),
        Some(String::from("now")),
        None,
    ));
    let text = fgcd_model::input::print::entry_to_string(&group, 1, IndexPosition::First);
    assert_eq!(text, "(now) [ {air} A, <tap> [ B ] (twice) ] <quick>");
    assert_eq!(
        Parts::of_shape(GROUP_SHAPE, &text),
        Some(parts(
            Some("(now)"),
            None,
            "[ {air} A, <tap> [ B ] (twice) ]",
            Some("<quick>"),
            None
        ))
    );
    // a combination that begins with a group
    let combination = Entry::Combination(fgcd_model::input::CombinationEntry::new(
        vec![
            CombinationItem::Group(GroupEntry::new(
                vec![InputEntry::for_symbol("A"), InputEntry::for_symbol("B")],
                Some(Technique::Tap),
                None,
                None,
            )),
            CombinationItem::Symbol(String::from("C")),
        ],
        Some(Technique::Charge),
        None,
        Some(String::from("hold")),
    ));
    let text = fgcd_model::input::print::entry_to_string(&combination, 0, IndexPosition::Only);
    assert_eq!(text, "<charge> [ A, B ] <tap> + C (hold)");
    assert_eq!(Parts::of_shape(GROUP_SHAPE, &text), None);
    assert_eq!(
        Parts::of_shape(COMBINATION_SHAPE, &text),
        Some(parts(None, Some("<charge>"), "[ A, B ] <tap> + C", None, Some("(hold)")))
    );
    assert_eq!(
        Parts::of_shape(GROUP_SHAPE, "[ A, B ] <tap>"),
        Some(parts(None, None, "[ A, B ]", Some("<tap>"), None))
    );
    assert_eq!(Parts::of_shape(INPUT_SHAPE, "C"), Some(parts(None, None, "C", None, None)));
}
