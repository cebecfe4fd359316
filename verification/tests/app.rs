use keyboard::app::App;
use keyboard::app::Context;
use keyboard::app::CurrentScreen;
use keyboard::app::CurrentSelection;
use keyboard::app::TranslationDirection;
use keyboard::app::selection_parts;
use keyboard::converter::Kana;
use keyboard::converter::RomanjiToKanaConverter;
use keyboard::kanji_converter::HiragaToKanjiConverter;
use keyboard::kanji_converter::Kanji;
use keyboard::lessons::Book;
use keyboard::lessons::Lesson;
use keyboard::lessons::Phrase;
use keyboard::lessons::Section;
use keyboard::session::Key;
use keyboard::session::Picks;

fn kana_rule(key: char, value: Option<&str>, next: Vec<Kana>) -> Kana {
    Kana { key, value: value.map(|v| v.to_string()), next }
}

/// The vowels, the `k` row, `shi`, and `q`, which gives two kana.
fn session_kana() -> RomanjiToKanaConverter {
    let roots = vec![
        kana_rule('a', Some("あ"), vec![]),
        kana_rule('i', Some("い"), vec![]),
        kana_rule('u', Some("う"), vec![]),
        kana_rule('e', Some("え"), vec![]),
        kana_rule('o', Some("お"), vec![]),
        kana_rule(
            'k',
            None,
            vec![
                kana_rule('a', Some("か"), vec![]),
                kana_rule('i', Some("き"), vec![]),
                kana_rule('u', Some("く"), vec![]),
            ],
        ),
        kana_rule('s', None, vec![kana_rule('h', None, vec![kana_rule('i', Some("し"), vec![])])]),
        kana_rule('q', Some("くぁ"), vec![]),
    ];
    RomanjiToKanaConverter::new(keyboard::converter::Head { roots })
}

fn kanji_rule(key: char, value: Option<&[char]>, next: Vec<Kanji>) -> Kanji {
    Kanji { key, value: value.map(|v| v.to_vec()), next }
}

/// あい -> 愛 藍, あいうえお -> 全, いう -> 言, うえお -> 上, えお -> 絵, お -> 尾.
fn session_kanji() -> HiragaToKanjiConverter {
    let roots = vec![
        kanji_rule(
            'あ',
            None,
            vec![kanji_rule(
                'い',
                Some(&['愛', '藍']),
                vec![kanji_rule(
                    'う',
                    None,
                    vec![kanji_rule('え', None, vec![kanji_rule('お', Some(&['全']), vec![])])],
                )],
            )],
        ),
        kanji_rule('い', None, vec![kanji_rule('う', Some(&['言']), vec![])]),
        kanji_rule(
            'う',
            None,
            vec![kanji_rule('え', None, vec![kanji_rule('お', Some(&['上']), vec![])])],
        ),
        kanji_rule('え', None, vec![kanji_rule('お', Some(&['絵']), vec![])]),
        kanji_rule('お', Some(&['尾']), vec![]),
    ];
    HiragaToKanjiConverter::new(keyboard::kanji_converter::Head { roots })
}

fn phrase(en: &str, jp: &str) -> Phrase {
    Phrase { en: en.to_string(), jp: jp.to_string(), kanji: None }
}

fn section(name: &str, phrases: Vec<Phrase>) -> Section {
    Section { name: name.to_string(), phrases }
}

fn lesson(index: usize, sections: Vec<Section>) -> Lesson {
    Lesson { index, name_en: format!("Lesson {}", index), name_jp: "だい".to_string(), sections }
}

/// Three lessons: the first with sections of 2 and 3 phrases, the second
/// with one section of 1 phrase, the third without sections.
fn session_book() -> Book {
    Book::new(vec![
        lesson(
            1,
            vec![
                section("greetings", vec![phrase("hello", "こんにちは"), phrase("bye", "さようなら")]),
                section(
                    "numbers",
                    vec![phrase("one", "いち"), phrase("two", "に"), phrase("three", "さん")],
                ),
            ],
        ),
        lesson(2, vec![section("time", vec![phrase("now", "いま")])]),
        lesson(3, vec![]),
    ])
}

fn session() -> App {
    App::new(session_book(), session_kana(), session_kanji())
}

fn type_all(app: &mut App, romaji: &str) {
    for c in romaji.chars() {
        app.push_char(c);
    }
}

fn no_picks() -> Picks {
    Picks { direction: 0, section: 0, phrase: 0 }
}

/// A session on the review screen of the first lesson, started from the
/// list of lessons.
fn reviewing() -> App {
    let mut app = session();
    assert!(!app.apply_key(Key::Other, false, no_picks()));
    assert!(!app.apply_key(Key::Enter, false, Picks { direction: 1, section: 1, phrase: 2 }));
    app
}

fn press_all(app: &mut App, romaji: &str) {
    for c in romaji.chars() {
        assert!(!app.apply_key(Key::Char(c), false, no_picks()));
    }
}

#[test]
fn new_session_is_empty() {
    let app = session();
    assert_eq!(app.get_romanji(), "");
    assert_eq!(app.get_kana(), "");
    assert_eq!(app.get_kanji(), "");
    assert_eq!(app.selection(), (0, 1));
    assert!(matches!(app.context().current_screen, CurrentScreen::Welcome));
    assert!(matches!(app.context().current_selection, CurrentSelection::Lesson));
    assert_eq!(app.context().lesson, 0);
    assert_eq!(app.context().section, 0);
    assert_eq!(app.context().phrase, 0);
    assert_eq!(app.context().prev_section, None);
    assert_eq!(app.context().prev_phrase, None);
    assert_eq!(app.context().translation_direction, TranslationDirection::ToEN);
    assert_eq!(app.context().prev_translation_direction, None);
    assert_eq!(app.context().prev_answer, None);
    assert_eq!(app.book().get_lessons().len(), 3);
}

#[test]
fn new_context_is_the_welcome_screen() {
    let context = Context::new();
    assert!(matches!(context.current_screen, CurrentScreen::Welcome));
    assert!(matches!(context.current_selection, CurrentSelection::Lesson));
    assert_eq!((context.lesson, context.section, context.phrase), (0, 0, 0));
    assert_eq!(context.prev_section, None);
    assert_eq!(context.prev_phrase, None);
    assert_eq!(context.translation_direction, TranslationDirection::ToEN);
    assert_eq!(context.prev_translation_direction, None);
    assert_eq!(context.prev_answer, None);
}

#[test]
fn push_char_appends_and_converts() {
    let mut app = session();
    app.push_char('k');
    assert_eq!(app.get_romanji(), "k");
    assert_eq!(app.get_kana(), "k");
    app.push_char('a');
    assert_eq!(app.get_romanji(), "ka");
    assert_eq!(app.get_kana(), "か");
    app.push_char('x');
    assert_eq!(app.get_romanji(), "kax");
    assert_eq!(app.get_kana(), "かx");
}

#[test]
fn pop_char_removes_the_last_and_converts() {
    let mut app = session();
    type_all(&mut app, "shi");
    assert_eq!(app.get_kana(), "し");
    app.pop_char();
    assert_eq!(app.get_romanji(), "sh");
    assert_eq!(app.get_kana(), "sh");
    app.pop_char();
    app.pop_char();
    assert_eq!(app.get_romanji(), "");
    assert_eq!(app.get_kana(), "");
    app.pop_char();
    assert_eq!(app.get_romanji(), "");
    assert_eq!(app.get_kana(), "");
}

#[test]
fn composite_without_spans_is_the_kana() {
    let mut app = session();
    type_all(&mut app, "aiueo");
    assert_eq!(app.get_kanji(), "");
    app.update_kanji();
    assert_eq!(app.get_kanji(), "あいうえお");
}

#[test]
fn span_puts_its_glyph_in_place_of_its_kana() {
    let mut app = session();
    type_all(&mut app, "aiueo");
    app.push_kanji_offset((2, 3, 0));
    app.update_kanji();
    assert_eq!(app.get_kanji(), "あい上");
    assert_eq!(app.get_kana(), "あいうえお");
}

#[test]
fn span_takes_the_candidate_of_its_index() {
    let mut app = session();
    type_all(&mut app, "aiu");
    app.push_kanji_offset((0, 2, 1));
    app.update_kanji();
    assert_eq!(app.get_kanji(), "藍う");
}

#[test]
fn candidate_out_of_range_is_dropped() {
    let mut app = session();
    type_all(&mut app, "aiu");
    app.push_kanji_offset((0, 2, 2));
    app.update_kanji();
    assert_eq!(app.get_kanji(), "あいう");
    // kana without any candidate
    app.push_kanji_offset((0, 1, 0));
    app.update_kanji();
    assert_eq!(app.get_kanji(), "あいう");
    // a dropped request evicts nothing
    app.push_kanji_offset((0, 2, 0));
    app.push_kanji_offset((1, 2, 7));
    app.update_kanji();
    assert_eq!(app.get_kanji(), "愛う");
}

#[test]
fn colliding_span_evicts_the_older_one() {
    let mut app = session();
    type_all(&mut app, "aiu");
    app.push_kanji_offset((0, 2, 0));
    app.update_kanji();
    assert_eq!(app.get_kanji(), "愛う");
    app.push_kanji_offset((1, 2, 0));
    app.update_kanji();
    assert_eq!(app.get_kanji(), "あ言");
}

#[test]
fn span_whose_start_is_hit_is_evicted() {
    let mut app = session();
    type_all(&mut app, "aiueo");
    app.push_kanji_offset((1, 2, 0));
    app.push_kanji_offset((0, 2, 0));
    app.update_kanji();
    assert_eq!(app.get_kanji(), "愛うえお");
}

#[test]
fn span_inside_a_new_span_is_evicted() {
    let mut app = session();
    type_all(&mut app, "aiueo");
    app.push_kanji_offset((1, 2, 0));
    app.push_kanji_offset((0, 5, 0));
    app.update_kanji();
    assert_eq!(app.get_kanji(), "全");
    app.pop_char();
    app.push_char('o');
    app.update_kanji();
    assert_eq!(app.get_kanji(), "全");
}

#[test]
fn touching_spans_both_stay() {
    let mut app = session();
    type_all(&mut app, "aiueo");
    app.push_kanji_offset((0, 2, 0));
    app.push_kanji_offset((2, 3, 0));
    app.update_kanji();
    assert_eq!(app.get_kanji(), "愛上");
    let mut other = session();
    type_all(&mut other, "aiueo");
    other.push_kanji_offset((2, 3, 0));
    other.push_kanji_offset((0, 2, 0));
    other.update_kanji();
    assert_eq!(other.get_kanji(), "愛上");
}

#[test]
fn spans_apply_in_ascending_order_with_adjusted_offsets() {
    let mut app = session();
    type_all(&mut app, "aiueo");
    // stored out of order
    app.push_kanji_offset((3, 2, 0));
    app.push_kanji_offset((0, 2, 0));
    app.update_kanji();
    assert_eq!(app.get_kanji(), "愛う絵");
    // a second update changes nothing
    app.update_kanji();
    assert_eq!(app.get_kanji(), "愛う絵");
    let mut three = session();
    type_all(&mut three, "aiaiueo");
    three.push_kanji_offset((6, 1, 0));
    three.push_kanji_offset((2, 2, 1));
    three.push_kanji_offset((0, 2, 0));
    three.update_kanji();
    assert_eq!(three.get_kana(), "あいあいうえお");
    assert_eq!(three.get_kanji(), "愛藍うえ尾");
}

#[test]
fn span_inside_a_stored_span_evicts_it() {
    let mut app = session();
    type_all(&mut app, "aiueo");
    app.push_kanji_offset((0, 5, 0));
    app.update_kanji();
    assert_eq!(app.get_kanji(), "全");
    app.push_kanji_offset((1, 2, 0));
    assert_eq!(app.kanji_offsets(), &vec![(1, 2, 0)]);
    app.update_kanji();
    assert_eq!(app.get_kanji(), "あ言えお");
}

#[test]
fn span_on_the_same_range_replaces_the_stored_one() {
    let mut app = session();
    type_all(&mut app, "aiu");
    app.push_kanji_offset((0, 2, 0));
    app.push_kanji_offset((0, 2, 1));
    assert_eq!(app.kanji_offsets(), &vec![(0, 2, 1)]);
    app.update_kanji();
    assert_eq!(app.get_kanji(), "藍う");
    app.push_kanji_offset((0, 2, 0));
    app.update_kanji();
    assert_eq!(app.get_kanji(), "愛う");
    assert_eq!(app.kanji_offsets(), &vec![(0, 2, 0)]);
}

#[test]
fn same_span_added_again_is_held_once() {
    let mut app = session();
    type_all(&mut app, "aiueo");
    app.push_kanji_offset((3, 2, 0));
    for _ in 0..4 {
        app.push_kanji_offset((0, 2, 0));
    }
    assert_eq!(app.kanji_offsets(), &vec![(3, 2, 0), (0, 2, 0)]);
    app.update_kanji();
    assert_eq!(app.kanji_offsets(), &vec![(0, 2, 0), (3, 2, 0)]);
    assert_eq!(app.get_kanji(), "愛う絵");
}

#[test]
fn span_that_shares_one_boundary_and_reaches_beyond_is_evicted() {
    // same start, the stored one shorter
    let mut app = session();
    type_all(&mut app, "aiueo");
    app.push_kanji_offset((0, 2, 0));
    app.push_kanji_offset((0, 5, 0));
    assert_eq!(app.kanji_offsets(), &vec![(0, 5, 0)]);
    // same start, the stored one longer
    app.push_kanji_offset((0, 2, 1));
    assert_eq!(app.kanji_offsets(), &vec![(0, 2, 1)]);
    app.update_kanji();
    assert_eq!(app.get_kanji(), "藍うえお");
    // same end
    let mut other = session();
    type_all(&mut other, "aiueo");
    other.push_kanji_offset((3, 2, 0));
    other.push_kanji_offset((2, 3, 0));
    assert_eq!(other.kanji_offsets(), &vec![(2, 3, 0)]);
    other.push_kanji_offset((4, 1, 0));
    assert_eq!(other.kanji_offsets(), &vec![(4, 1, 0)]);
    other.update_kanji();
    assert_eq!(other.get_kanji(), "あいうえ尾");
}

#[test]
fn newest_of_two_candidates_for_the_same_kana_wins() {
    let kana = RomanjiToKanaConverter::new(keyboard::converter::Head {
        roots: vec![
            kana_rule('h', None, vec![kana_rule('i', Some("ひ"), vec![])]),
            kana_rule('t', None, vec![kana_rule('o', Some("と"), vec![])]),
        ],
    });
    let kanji = HiragaToKanjiConverter::new(keyboard::kanji_converter::Head {
        roots: vec![kanji_rule('ひ', None, vec![kanji_rule('と', Some(&['一', '人']), vec![])])],
    });
    let mut app = App::new(session_book(), kana, kanji);
    type_all(&mut app, "hito");
    assert_eq!(app.get_kana(), "ひと");
    app.push_kanji_offset((0, 2, 0));
    app.push_kanji_offset((0, 2, 1));
    app.update_kanji();
    assert_eq!(app.kanji_offsets(), &vec![(0, 2, 1)]);
    assert_eq!(app.get_kanji(), "人");
}

#[test]
fn stored_spans_never_overlap() {
    let mut app = session();
    type_all(&mut app, "aiaiueo");
    let requests = [
        (0, 2, 0),
        (2, 2, 1),
        (1, 2, 0),
        (6, 1, 0),
        (4, 3, 0),
        (2, 5, 0),
        (3, 2, 0),
        (0, 2, 1),
        (5, 2, 0),
        (6, 1, 0),
        (2, 2, 0),
    ];
    for request in requests {
        app.push_kanji_offset(request);
        let spans = app.kanji_offsets();
        for (i, a) in spans.iter().enumerate() {
            assert!(a.1 >= 1);
            for b in &spans[i + 1..] {
                assert!(a.0 + a.1 <= b.0 || b.0 + b.1 <= a.0, "{:?} and {:?} overlap", a, b);
            }
        }
    }
    // each span with a glyph evicted what it met; those without were dropped
    assert_eq!(app.kanji_offsets(), &vec![(0, 2, 1), (6, 1, 0), (2, 2, 0)]);
    app.update_kanji();
    assert_eq!(app.kanji_offsets(), &vec![(0, 2, 1), (2, 2, 0), (6, 1, 0)]);
    assert_eq!(app.get_kanji(), "藍愛うえ尾");
}

#[test]
fn selection_cuts_the_kana_into_three_parts() {
    let kana = "あいうえお".to_string();
    assert_eq!(
        selection_parts(&kana, 1, 2),
        ("あ".to_string(), "いう".to_string(), "えお".to_string())
    );
    assert_eq!(
        selection_parts(&kana, 0, 1),
        (String::new(), "あ".to_string(), "いうえお".to_string())
    );
    assert_eq!(
        selection_parts(&kana, 4, 1),
        ("あいうえ".to_string(), "お".to_string(), String::new())
    );
    assert_eq!(selection_parts(&kana, 0, 5), (String::new(), kana.clone(), String::new()));
    assert_eq!(
        selection_parts(&"aか".to_string(), 1, 1),
        ("a".to_string(), "か".to_string(), String::new())
    );
}

#[test]
fn shrunk_kana_drops_the_span() {
    let mut app = session();
    type_all(&mut app, "aiueo");
    app.push_kanji_offset((2, 3, 0));
    app.update_kanji();
    assert_eq!(app.get_kanji(), "あい上");
    app.pop_char();
    app.pop_char();
    assert_eq!(app.get_kana(), "あいう");
    app.update_kanji();
    assert_eq!(app.get_kanji(), "あいう");
    // the span does not come back with the kana
    type_all(&mut app, "eo");
    app.update_kanji();
    assert_eq!(app.get_kana(), "あいうえお");
    assert_eq!(app.get_kanji(), "あいうえお");
}

#[test]
fn span_that_still_fits_survives_shrinking() {
    let mut app = session();
    type_all(&mut app, "aiueo");
    app.push_kanji_offset((0, 2, 0));
    app.push_kanji_offset((3, 2, 0));
    app.pop_char();
    app.update_kanji();
    assert_eq!(app.get_kanji(), "愛うえ");
    type_all(&mut app, "o");
    app.update_kanji();
    assert_eq!(app.get_kanji(), "愛うえお");
}

#[test]
fn span_looks_its_glyph_up_afresh() {
    let mut app = session();
    type_all(&mut app, "aiu");
    app.push_kanji_offset((1, 2, 0));
    app.update_kanji();
    assert_eq!(app.get_kanji(), "あ言");
    // the kana under the span changes: "あいお" has no kanji for "いお"
    app.pop_char();
    app.push_char('o');
    app.update_kanji();
    assert_eq!(app.get_kanji(), "あいお");
    app.pop_char();
    app.push_char('u');
    app.update_kanji();
    assert_eq!(app.get_kanji(), "あ言");
}

#[test]
fn convert_to_kanji_uses_the_kanji_grammar() {
    let app = session();
    assert_eq!(app.convert_to_kanji(&"あい".to_string()), vec!['愛', '藍']);
    assert_eq!(app.convert_to_kanji(&"あ".to_string()), Vec::<char>::new());
}

#[test]
fn highlighted_kanji_follows_the_selection() {
    let mut app = reviewing();
    assert_eq!(app.highlighted_kanji(), Vec::<char>::new());
    press_all(&mut app, "ai");
    assert_eq!(app.selection(), (0, 1));
    assert_eq!(app.highlighted_kanji(), Vec::<char>::new());
    app.apply_key(Key::Right, true, no_picks());
    assert_eq!(app.selection(), (0, 2));
    assert_eq!(app.highlighted_kanji(), vec!['愛', '藍']);
}

#[test]
fn welcome_screen_leads_to_the_lessons() {
    let mut app = session();
    assert!(app.apply_key(Key::Esc, false, no_picks()));
    assert!(matches!(app.context().current_screen, CurrentScreen::Welcome));
    assert!(!app.apply_key(Key::Char('x'), false, no_picks()));
    assert!(matches!(app.context().current_screen, CurrentScreen::LessonSelect));
    assert_eq!(app.get_romanji(), "");
    assert!(app.apply_key(Key::Esc, false, no_picks()));
    assert!(matches!(app.context().current_screen, CurrentScreen::LessonSelect));
}

#[test]
fn lessons_wrap_around() {
    let mut app = session();
    app.apply_key(Key::Other, false, no_picks());
    app.apply_key(Key::Up, false, no_picks());
    assert_eq!(app.context().lesson, 2);
    app.apply_key(Key::Down, false, no_picks());
    assert_eq!(app.context().lesson, 0);
    app.apply_key(Key::Down, false, no_picks());
    assert_eq!(app.context().lesson, 1);
    app.apply_key(Key::Down, false, no_picks());
    assert_eq!(app.context().lesson, 2);
    app.apply_key(Key::Up, false, no_picks());
    assert_eq!(app.context().lesson, 1);
}

#[test]
fn sections_wrap_around() {
    let mut app = session();
    app.apply_key(Key::Other, false, no_picks());
    app.apply_key(Key::Right, false, no_picks());
    assert!(matches!(app.context().current_selection, CurrentSelection::Section));
    assert_eq!(app.context().section, 0);
    app.apply_key(Key::Down, false, no_picks());
    assert_eq!(app.context().section, 1);
    app.apply_key(Key::Down, false, no_picks());
    assert_eq!(app.context().section, 0);
    app.apply_key(Key::Up, false, no_picks());
    assert_eq!(app.context().section, 1);
    app.apply_key(Key::Left, false, no_picks());
    assert!(matches!(app.context().current_selection, CurrentSelection::Lesson));
    assert_eq!(app.context().section, 0);
    assert!(matches!(app.context().current_screen, CurrentScreen::LessonSelect));
}

#[test]
fn review_from_the_lessons_draws_section_and_phrase() {
    let mut app = session();
    app.apply_key(Key::Other, false, no_picks());
    assert!(!app.apply_key(Key::Enter, false, Picks { direction: 0, section: 1, phrase: 2 }));
    assert!(matches!(app.context().current_screen, CurrentScreen::Review));
    assert_eq!(app.context().translation_direction, TranslationDirection::ToJP);
    assert_eq!(app.context().section, 1);
    assert_eq!(app.context().phrase, 2);
    assert_eq!(app.context().prev_phrase, None);
}

#[test]
fn review_of_a_section_keeps_the_section() {
    let mut app = session();
    app.apply_key(Key::Other, false, no_picks());
    app.apply_key(Key::Right, false, no_picks());
    app.apply_key(Key::Down, false, no_picks());
    assert!(!app.apply_key(Key::Enter, false, Picks { direction: 1, section: 0, phrase: 1 }));
    assert!(matches!(app.context().current_screen, CurrentScreen::Review));
    assert_eq!(app.context().translation_direction, TranslationDirection::ToEN);
    assert_eq!(app.context().section, 1);
    assert_eq!(app.context().phrase, 1);
    // the next question stays in the section
    assert!(!app.apply_key(Key::Enter, false, Picks { direction: 0, section: 0, phrase: 2 }));
    assert_eq!(app.context().section, 1);
    assert_eq!(app.context().phrase, 2);
    assert_eq!(app.context().prev_section, Some(1));
    assert_eq!(app.context().prev_phrase, Some(1));
}

#[test]
fn review_does_not_start_without_a_phrase() {
    let mut app = session();
    app.apply_key(Key::Other, false, no_picks());
    // no such phrase in the section drawn
    app.apply_key(Key::Enter, false, Picks { direction: 0, section: 0, phrase: 2 });
    assert!(matches!(app.context().current_screen, CurrentScreen::LessonSelect));
    // no such section
    app.apply_key(Key::Enter, false, Picks { direction: 0, section: 2, phrase: 0 });
    assert!(matches!(app.context().current_screen, CurrentScreen::LessonSelect));
    // a lesson without sections
    app.apply_key(Key::Up, false, no_picks());
    assert_eq!(app.context().lesson, 2);
    app.apply_key(Key::Enter, false, no_picks());
    assert!(matches!(app.context().current_screen, CurrentScreen::LessonSelect));
    assert!(!app.handle_key(Key::Enter, false));
    assert!(matches!(app.context().current_screen, CurrentScreen::LessonSelect));
    app.apply_key(Key::Right, false, no_picks());
    app.apply_key(Key::Down, false, no_picks());
    assert_eq!(app.context().section, 0);
    app.apply_key(Key::Up, false, no_picks());
    assert_eq!(app.context().section, 0);
}

#[test]
fn drawn_question_lies_in_the_book() {
    for _ in 0..50 {
        let mut app = session();
        assert!(!app.handle_key(Key::Other, false));
        assert!(!app.handle_key(Key::Enter, false));
        assert!(matches!(app.context().current_screen, CurrentScreen::Review));
        let lessons = app.book().get_lessons();
        let sections = &lessons[app.context().lesson].sections;
        assert!(app.context().section < sections.len());
        assert!(app.context().phrase < sections[app.context().section].phrases.len());
        let mut app = session();
        app.handle_key(Key::Other, false);
        app.handle_key(Key::Right, false);
        app.handle_key(Key::Down, false);
        app.handle_key(Key::Enter, false);
        assert!(matches!(app.context().current_screen, CurrentScreen::Review));
        assert_eq!(app.context().section, 1);
        assert!(app.context().phrase < 3);
    }
}

#[test]
fn typing_in_review_converts_and_overlays() {
    let mut app = reviewing();
    press_all(&mut app, "aiueo");
    assert_eq!(app.get_romanji(), "aiueo");
    assert_eq!(app.get_kana(), "あいうえお");
    assert_eq!(app.get_kanji(), "あいうえお");
    assert_eq!(app.selection(), (0, 1));
    // keys of other screens type nothing
    let mut other = session();
    other.apply_key(Key::Char('a'), false, no_picks());
    other.apply_key(Key::Char('a'), false, no_picks());
    assert_eq!(other.get_romanji(), "");
}

#[test]
fn selection_moves_within_the_kana() {
    let mut app = reviewing();
    press_all(&mut app, "aiu");
    app.apply_key(Key::Right, false, no_picks());
    assert_eq!(app.selection(), (1, 1));
    app.apply_key(Key::Right, false, no_picks());
    assert_eq!(app.selection(), (2, 1));
    app.apply_key(Key::Right, false, no_picks());
    assert_eq!(app.selection(), (2, 1));
    app.apply_key(Key::Right, true, no_picks());
    assert_eq!(app.selection(), (2, 1));
    app.apply_key(Key::Left, false, no_picks());
    assert_eq!(app.selection(), (1, 1));
    app.apply_key(Key::Right, true, no_picks());
    assert_eq!(app.selection(), (1, 2));
    app.apply_key(Key::Right, true, no_picks());
    assert_eq!(app.selection(), (1, 2));
    app.apply_key(Key::Left, true, no_picks());
    assert_eq!(app.selection(), (1, 1));
    app.apply_key(Key::Left, true, no_picks());
    assert_eq!(app.selection(), (1, 1));
    app.apply_key(Key::Right, true, no_picks());
    app.apply_key(Key::Right, false, no_picks());
    assert_eq!(app.selection(), (1, 1));
    app.apply_key(Key::Right, true, no_picks());
    app.apply_key(Key::Left, false, no_picks());
    assert_eq!(app.selection(), (0, 1));
    app.apply_key(Key::Left, false, no_picks());
    assert_eq!(app.selection(), (0, 1));
}

#[test]
fn tab_commits_the_selection_with_the_default_candidate() {
    let mut app = reviewing();
    // no kana yet: nothing to commit
    app.apply_key(Key::Tab, false, no_picks());
    assert_eq!(app.get_kanji(), "");
    press_all(&mut app, "aiu");
    app.apply_key(Key::Right, true, no_picks());
    app.apply_key(Key::Tab, false, no_picks());
    assert_eq!(app.get_kanji(), "愛う");
    app.set_default_candidate(1);
    app.apply_key(Key::Right, false, no_picks());
    app.apply_key(Key::Right, true, no_picks());
    assert_eq!(app.selection(), (1, 2));
    // "いう" has one candidate only: the request is dropped
    app.apply_key(Key::Tab, false, no_picks());
    assert_eq!(app.get_kanji(), "愛う");
    app.set_default_candidate(0);
    app.apply_key(Key::Tab, false, no_picks());
    assert_eq!(app.get_kanji(), "あ言");
}

#[test]
fn selection_follows_the_kana_when_it_shrinks() {
    let mut app = reviewing();
    press_all(&mut app, "sh");
    app.apply_key(Key::Right, false, no_picks());
    assert_eq!(app.selection(), (1, 1));
    // "sh" + "i" becomes the single kana し
    press_all(&mut app, "i");
    assert_eq!(app.get_kana(), "し");
    assert_eq!(app.selection(), (0, 1));
    // a selection longer than the kana becomes the whole kana
    let mut long = reviewing();
    press_all(&mut long, "sh");
    long.apply_key(Key::Right, true, no_picks());
    assert_eq!(long.selection(), (0, 2));
    press_all(&mut long, "i");
    assert_eq!(long.selection(), (0, 1));
}

#[test]
fn backspace_shrinks_the_selection_first() {
    let mut app = reviewing();
    press_all(&mut app, "aiu");
    app.apply_key(Key::Right, false, no_picks());
    app.apply_key(Key::Right, true, no_picks());
    assert_eq!(app.selection(), (1, 2));
    app.apply_key(Key::Backspace, false, no_picks());
    assert_eq!(app.get_kana(), "あい");
    assert_eq!(app.selection(), (1, 1));
    app.apply_key(Key::Backspace, false, no_picks());
    assert_eq!(app.get_kana(), "あ");
    assert_eq!(app.selection(), (0, 1));
    app.apply_key(Key::Backspace, false, no_picks());
    assert_eq!(app.get_kana(), "");
    assert_eq!(app.selection(), (0, 1));
    app.apply_key(Key::Backspace, false, no_picks());
    assert_eq!(app.get_romanji(), "");
    // two kana go at once
    let mut two = reviewing();
    press_all(&mut two, "aq");
    assert_eq!(two.get_kana(), "あくぁ");
    two.apply_key(Key::Right, false, no_picks());
    two.apply_key(Key::Right, true, no_picks());
    assert_eq!(two.selection(), (1, 2));
    two.apply_key(Key::Backspace, false, no_picks());
    assert_eq!(two.get_kana(), "あ");
    assert_eq!(two.selection(), (0, 1));
}

#[test]
fn backspace_in_review_drops_spans_beyond_the_kana() {
    let mut app = reviewing();
    press_all(&mut app, "aiueo");
    app.apply_key(Key::Right, false, no_picks());
    app.apply_key(Key::Right, false, no_picks());
    app.apply_key(Key::Right, true, no_picks());
    app.apply_key(Key::Right, true, no_picks());
    assert_eq!(app.selection(), (2, 3));
    app.apply_key(Key::Tab, false, no_picks());
    assert_eq!(app.get_kanji(), "あい上");
    app.apply_key(Key::Backspace, false, no_picks());
    app.apply_key(Key::Backspace, false, no_picks());
    assert_eq!(app.get_kana(), "あいう");
    assert_eq!(app.get_kanji(), "あいう");
    assert_eq!(app.selection(), (2, 1));
    press_all(&mut app, "eo");
    assert_eq!(app.get_kanji(), "あいうえお");
}

#[test]
fn enter_in_review_records_the_answer_and_asks_again() {
    let mut app = reviewing();
    assert_eq!(app.context().translation_direction, TranslationDirection::ToEN);
    press_all(&mut app, "ai");
    app.apply_key(Key::Right, true, no_picks());
    app.apply_key(Key::Tab, false, no_picks());
    assert_eq!(app.get_kanji(), "愛");
    assert!(!app.apply_key(Key::Enter, false, Picks { direction: 0, section: 0, phrase: 1 }));
    assert_eq!(app.context().prev_section, Some(1));
    assert_eq!(app.context().prev_phrase, Some(2));
    assert_eq!(app.context().prev_translation_direction, Some(TranslationDirection::ToEN));
    assert_eq!(app.context().prev_answer, Some("ai".to_string()));
    assert_eq!(app.context().translation_direction, TranslationDirection::ToJP);
    assert_eq!(app.context().section, 0);
    assert_eq!(app.context().phrase, 1);
    assert_eq!(app.get_romanji(), "");
    assert_eq!(app.get_kana(), "");
    assert_eq!(app.get_kanji(), "");
    assert_eq!(app.selection(), (0, 1));
    // translating to Japanese, the composite text is the answer
    press_all(&mut app, "aiu");
    app.apply_key(Key::Right, true, no_picks());
    app.apply_key(Key::Tab, false, no_picks());
    app.apply_key(Key::Enter, false, Picks { direction: 1, section: 1, phrase: 0 });
    assert_eq!(app.context().prev_answer, Some("愛う".to_string()));
    assert_eq!(app.context().prev_translation_direction, Some(TranslationDirection::ToJP));
    assert_eq!(app.context().prev_section, Some(0));
    assert_eq!(app.context().prev_phrase, Some(1));
    // the spans of the last answer are gone
    press_all(&mut app, "aiu");
    assert_eq!(app.get_kanji(), "あいう");
    // numbers that name no phrase change nothing
    app.apply_key(Key::Enter, false, Picks { direction: 1, section: 0, phrase: 9 });
    assert_eq!(app.get_romanji(), "aiu");
    assert_eq!(app.context().prev_phrase, Some(1));
}

#[test]
fn esc_in_review_goes_back_to_the_lessons() {
    let mut app = session();
    app.apply_key(Key::Other, false, no_picks());
    app.apply_key(Key::Down, false, no_picks());
    app.apply_key(Key::Enter, false, no_picks());
    assert!(matches!(app.context().current_screen, CurrentScreen::Review));
    assert_eq!(app.context().lesson, 1);
    press_all(&mut app, "ka");
    app.apply_key(Key::Enter, false, no_picks());
    press_all(&mut app, "ki");
    assert!(!app.apply_key(Key::Esc, false, no_picks()));
    assert!(matches!(app.context().current_screen, CurrentScreen::LessonSelect));
    assert!(matches!(app.context().current_selection, CurrentSelection::Lesson));
    assert_eq!(app.context().lesson, 0);
    assert_eq!(app.context().section, 0);
    assert_eq!(app.context().prev_section, None);
    assert_eq!(app.context().prev_phrase, None);
    assert_eq!(app.context().prev_translation_direction, None);
    assert_eq!(app.context().prev_answer, None);
    assert_eq!(app.get_romanji(), "");
    assert_eq!(app.get_kana(), "");
    assert_eq!(app.get_kanji(), "");
    assert_eq!(app.selection(), (0, 1));
}

#[test]
fn other_keys_change_nothing_in_review() {
    let mut app = reviewing();
    press_all(&mut app, "ai");
    for key in [Key::Up, Key::Down, Key::Other] {
        assert!(!app.apply_key(key, false, no_picks()));
    }
    assert_eq!(app.get_romanji(), "ai");
    assert_eq!(app.selection(), (0, 1));
    assert!(matches!(app.context().current_screen, CurrentScreen::Review));
}
