use keyboard::cli::Mode;
use keyboard::cli::Reviewer as LineReviewer;
use keyboard::converter::Kana;
use keyboard::converter::RomanjiToKanaConverter;
use keyboard::kanji_converter::HiragaToKanjiConverter;
use keyboard::kanji_converter::Kanji;
use keyboard::lessons::Action;
use keyboard::lessons::Book;
use keyboard::lessons::Menu;
use keyboard::lessons::Lesson;
use keyboard::lessons::Phrase;
use keyboard::lessons::Reviewer;
use keyboard::lessons::Round;
use keyboard::lessons::Section;
use keyboard::app::TranslationDirection;

fn small_phrase(en: &str, jp: &str, kanji: Option<&str>) -> Phrase {
    Phrase { en: en.to_string(), jp: jp.to_string(), kanji: kanji.map(|k| k.to_string()) }
}

fn small_book() -> Book {
    Book::new(vec![
        Lesson {
            index: 1,
            name_en: "New Friends".to_string(),
            name_jp: "あたらしいともだち".to_string(),
            sections: vec![
                Section {
                    name: "greetings".to_string(),
                    phrases: vec![
                        small_phrase("good morning", "おはよう", None),
                        small_phrase("thank you", "ありがとう", None),
                    ],
                },
                Section {
                    name: "numbers".to_string(),
                    phrases: vec![
                        small_phrase("one", "いち", Some("一")),
                        small_phrase("two", "に", Some("二")),
                        small_phrase("three", "さん", Some("三")),
                    ],
                },
            ],
        },
        Lesson {
            index: 2,
            name_en: "Shopping".to_string(),
            name_jp: "かいもの".to_string(),
            sections: vec![Section { name: "empty".to_string(), phrases: vec![] }],
        },
        Lesson { index: 3, name_en: "Later".to_string(), name_jp: "あと".to_string(), sections: vec![] },
    ])
}

#[test]
fn book_hands_out_its_lessons_and_sections() {
    let book = small_book();
    let lessons = book.get_lessons();
    assert_eq!(lessons.len(), 3);
    assert_eq!(Book::get_lesson(lessons, 0).unwrap().name_en, "New Friends");
    assert_eq!(Book::get_lesson(lessons, 2).unwrap().index, 3);
    assert!(Book::get_lesson(lessons, 3).is_none());
    assert!(Book::get_lesson(lessons, usize::MAX).is_none());
    let first = Book::get_lesson(lessons, 0).unwrap();
    assert_eq!(Book::get_sections(first).len(), 2);
    assert_eq!(Book::get_section(first, 1).unwrap().name, "numbers");
    assert_eq!(Book::get_section(first, 1).unwrap().phrases[2].kanji, Some("三".to_string()));
    assert!(Book::get_section(first, 2).is_none());
    assert!(Book::get_section(&lessons[2], 0).is_none());
}

#[test]
fn reviewer_looks_up_lessons_and_sections() {
    let reviewer = Reviewer::new(small_book());
    assert_eq!(reviewer.get_lessons().len(), 3);
    let lesson = reviewer.get_lesson(0).unwrap();
    assert_eq!(lesson.name_jp, "あたらしいともだち");
    assert!(reviewer.get_lesson(3).is_none());
    assert!(reviewer.get_lesson(usize::MAX).is_none());
    assert_eq!(reviewer.get_section(lesson, 0).unwrap().name, "greetings");
    assert_eq!(reviewer.get_section(lesson, 1).unwrap().phrases.len(), 3);
    assert!(reviewer.get_section(lesson, 2).is_none());
}

#[test]
fn picked_phrase_lies_in_the_lesson() {
    let reviewer = Reviewer::new(small_book());
    let lesson = reviewer.get_lesson(0).unwrap();
    let mut seen = [[false; 3]; 2];
    for _ in 0..400 {
        let (section, phrase) = Reviewer::pick_phrase(lesson).unwrap();
        assert!(section < 2);
        assert!(phrase < lesson.sections[section].phrases.len());
        seen[section][phrase] = true;
    }
    // with 400 draws every phrase has come up
    assert!(seen[0][0] && seen[0][1] && seen[1][0] && seen[1][1] && seen[1][2]);
    assert_eq!(Reviewer::pick_phrase(reviewer.get_lesson(1).unwrap()), None);
    assert_eq!(Reviewer::pick_phrase(reviewer.get_lesson(2).unwrap()), None);
}

#[test]
fn round_takes_the_named_unasked_phrase() {
    let mut round = Round::new(4);
    assert_eq!(round.remaining(), 4);
    assert_eq!(round.take(2), 2);
    assert_eq!(round.remaining(), 3);
    // 0, 1 and 3 are left
    assert_eq!(round.take(2), 3);
    assert_eq!(round.remaining(), 2);
    assert_eq!(round.take(0), 0);
    assert_eq!(round.remaining(), 1);
    assert_eq!(round.take(0), 1);
    // all asked: the next question starts a new round
    assert_eq!(round.remaining(), 4);
    assert_eq!(round.take(3), 3);
    assert_eq!(round.remaining(), 3);
    assert_eq!(round.take(2), 2);
}

#[test]
fn round_asks_every_phrase_once_before_any_again() {
    for _ in 0..20 {
        let mut round = Round::new(5);
        for _ in 0..3 {
            let mut asked = [false; 5];
            for _ in 0..5 {
                let index = Reviewer::pick_unasked(&mut round).unwrap();
                assert!(index < 5);
                assert!(!asked[index]);
                asked[index] = true;
            }
            assert!(asked.iter().all(|&a| a));
        }
    }
}

#[test]
fn round_on_an_empty_section_asks_nothing() {
    let mut round = Round::new(0);
    assert_eq!(round.remaining(), 0);
    assert_eq!(Reviewer::pick_unasked(&mut round), None);
    assert_eq!(Reviewer::pick_unasked(&mut round), None);
    let mut one = Round::new(1);
    assert_eq!(Reviewer::pick_unasked(&mut one), Some(0));
    assert_eq!(Reviewer::pick_unasked(&mut one), Some(0));
}

fn line_reviewer() -> LineReviewer {
    let kana = RomanjiToKanaConverter::new(keyboard::converter::Head {
        roots: vec![
            Kana { key: 'i', value: Some("い".to_string()), next: vec![] },
            Kana {
                key: 'c',
                value: None,
                next: vec![Kana {
                    key: 'h',
                    value: None,
                    next: vec![Kana { key: 'i', value: Some("ち".to_string()), next: vec![] }],
                }],
            },
        ],
    });
    let kanji = HiragaToKanjiConverter::new(keyboard::kanji_converter::Head {
        roots: vec![Kanji {
            key: 'い',
            value: None,
            next: vec![Kanji { key: 'ち', value: Some(vec!['一', '市']), next: vec![] }],
        }],
    });
    LineReviewer::new(small_book(), kana, kanji)
}

#[test]
fn line_is_converted_to_kana_and_kanji() {
    let reviewer = line_reviewer();
    assert_eq!(
        reviewer.convert(&"ichi".to_string()),
        Some(("いち".to_string(), vec!['一', '市']))
    );
    assert_eq!(reviewer.convert(&"chi".to_string()), Some(("ち".to_string(), vec![])));
    assert_eq!(reviewer.convert(&"ichi!".to_string()), Some(("いち!".to_string(), vec![])));
    assert_eq!(reviewer.convert(&String::new()), Some((String::new(), vec![])));
    assert_eq!(reviewer.convert(&":b".to_string()), Some((":b".to_string(), vec![])));
    assert_eq!(reviewer.convert(&":q".to_string()), None);
    assert_eq!(reviewer.book().get_lessons().len(), 3);
}

#[test]
fn first_line_chooses_the_mode() {
    assert!(matches!(LineReviewer::mode_for(&"0".to_string()), Mode::Convert));
    assert!(matches!(LineReviewer::mode_for(&"1".to_string()), Mode::Study));
    assert!(matches!(LineReviewer::mode_for(&"00".to_string()), Mode::Study));
    assert!(matches!(LineReviewer::mode_for(&String::new()), Mode::Study));
    assert!(matches!(LineReviewer::mode_for(&"-".to_string()), Mode::Study));
}

#[test]
fn answer_is_the_line_or_its_kana() {
    let reviewer = line_reviewer();
    assert_eq!(
        reviewer.your_answer(TranslationDirection::ToEN, &"ichi".to_string()),
        Some("ichi".to_string())
    );
    assert_eq!(
        reviewer.your_answer(TranslationDirection::ToJP, &"ichi".to_string()),
        Some("いち".to_string())
    );
    assert_eq!(reviewer.your_answer(TranslationDirection::ToEN, &":b".to_string()), None);
    assert_eq!(reviewer.your_answer(TranslationDirection::ToJP, &":b".to_string()), None);
    assert_eq!(
        reviewer.your_answer(TranslationDirection::ToJP, &":q".to_string()),
        Some(":q".to_string())
    );
    assert_eq!(
        reviewer.your_answer(TranslationDirection::ToEN, &String::new()),
        Some(String::new())
    );
}

fn after(menu: Menu, line: &str) -> (Menu, Action) {
    Reviewer::new(small_book()).study_step(menu, &line.to_string())
}

#[test]
fn lesson_prompt_takes_a_lesson_number_or_quits() {
    assert!(matches!(after(Menu::Lessons, "0"), (Menu::Sections(0), Action::Wait)));
    assert!(matches!(after(Menu::Lessons, "2"), (Menu::Sections(2), Action::Wait)));
    assert!(matches!(after(Menu::Lessons, "3"), (Menu::Lessons, Action::Wait)));
    assert!(matches!(after(Menu::Lessons, ":q"), (Menu::Lessons, Action::Quit)));
    assert!(matches!(after(Menu::Lessons, ":b"), (Menu::Lessons, Action::Wait)));
    assert!(matches!(after(Menu::Lessons, ""), (Menu::Lessons, Action::Wait)));
    assert!(matches!(after(Menu::Lessons, "one"), (Menu::Lessons, Action::Wait)));
    assert!(matches!(after(Menu::Lessons, ":q "), (Menu::Lessons, Action::Wait)));
}

#[test]
fn section_prompt_takes_a_section_number_or_goes_back() {
    assert!(matches!(
        after(Menu::Sections(0), "1"),
        (Menu::Sections(0), Action::ReviewSection(0, 1))
    ));
    assert!(matches!(
        after(Menu::Sections(0), "0"),
        (Menu::Sections(0), Action::ReviewSection(0, 0))
    ));
    // a number that names no section: the whole lesson
    assert!(matches!(after(Menu::Sections(0), "2"), (Menu::Sections(0), Action::ReviewLesson(0))));
    assert!(matches!(after(Menu::Sections(2), "0"), (Menu::Sections(2), Action::ReviewLesson(2))));
    assert!(matches!(after(Menu::Sections(0), ":b"), (Menu::Lessons, Action::Wait)));
    // the quit command only counts at the list of lessons
    assert!(matches!(after(Menu::Sections(0), ":q"), (Menu::Sections(0), Action::Wait)));
    assert!(matches!(after(Menu::Sections(1), "x"), (Menu::Sections(1), Action::Wait)));
    assert!(matches!(after(Menu::Sections(1), ""), (Menu::Sections(1), Action::Wait)));
}

#[test]
fn numbers_are_read_as_decimal_digits_with_an_optional_plus() {
    assert!(matches!(after(Menu::Lessons, "+1"), (Menu::Sections(1), Action::Wait)));
    assert!(matches!(after(Menu::Lessons, "01"), (Menu::Sections(1), Action::Wait)));
    assert!(matches!(after(Menu::Lessons, "+002"), (Menu::Sections(2), Action::Wait)));
    for line in ["+", "-1", "1 ", " 1", "1a", "1.0", "++1", "１", "0x1"] {
        assert!(matches!(after(Menu::Lessons, line), (Menu::Lessons, Action::Wait)));
        assert_eq!(line.parse::<usize>().ok(), None);
    }
    // numbers beyond the book, up to the largest and past it
    let largest = usize::MAX.to_string();
    assert!(matches!(
        after(Menu::Sections(0), &largest),
        (Menu::Sections(0), Action::ReviewLesson(0))
    ));
    let too_large = format!("{}0", largest);
    assert!(matches!(after(Menu::Sections(0), &too_large), (Menu::Sections(0), Action::Wait)));
    let next = format!("{}{}", &largest[..largest.len() - 1], '6');
    assert!(matches!(after(Menu::Sections(0), &next), (Menu::Sections(0), Action::Wait)));
    assert!(matches!(
        after(Menu::Sections(0), "99999999999999999999999999"),
        (Menu::Sections(0), Action::Wait)
    ));
}

#[test]
fn line_prompt_studies_the_same_book() {
    let reviewer = line_reviewer();
    assert!(matches!(
        reviewer.study_step(Menu::Lessons, &"1".to_string()),
        (Menu::Sections(1), Action::Wait)
    ));
    assert!(matches!(
        reviewer.study_step(Menu::Sections(0), &"1".to_string()),
        (Menu::Sections(0), Action::ReviewSection(0, 1))
    ));
    assert!(matches!(
        reviewer.study_step(Menu::Lessons, &":q".to_string()),
        (Menu::Lessons, Action::Quit)
    ));
}

#[test]
fn prompt_direction_is_english_for_zero() {
    assert_eq!(LineReviewer::direction_for(0), TranslationDirection::ToEN);
    assert_eq!(LineReviewer::direction_for(1), TranslationDirection::ToJP);
    let mut english = false;
    let mut japanese = false;
    for _ in 0..200 {
        match LineReviewer::pick_direction() {
            TranslationDirection::ToEN => english = true,
            TranslationDirection::ToJP => japanese = true,
        }
    }
    assert!(english && japanese);
}

#[test]
fn book_prompt_answers_with_a_given_converter() {
    let reviewer = Reviewer::new(small_book());
    assert_eq!(reviewer.book().get_lessons().len(), 3);
    let kana = RomanjiToKanaConverter::new(keyboard::converter::Head {
        roots: vec![Kana { key: 'i', value: Some("い".to_string()), next: vec![] }],
    });
    assert_eq!(
        Reviewer::your_answer(&kana, TranslationDirection::ToJP, &"iki".to_string()),
        Some("いkい".to_string())
    );
    assert_eq!(
        Reviewer::your_answer(&kana, TranslationDirection::ToEN, &"iki".to_string()),
        Some("iki".to_string())
    );
    assert_eq!(Reviewer::your_answer(&kana, TranslationDirection::ToJP, &":b".to_string()), None);
    assert_eq!(Reviewer::your_answer(&kana, TranslationDirection::ToEN, &":b".to_string()), None);
}

#[test]
fn round_of_many_phrases_takes_each_once() {
    let mut round = Round::new(50);
    let mut asked = [false; 50];
    // always the last of those left, then always the first
    for left in (26..=50).rev() {
        assert_eq!(round.remaining(), left);
        let index = round.take(left - 1);
        assert!(!asked[index]);
        asked[index] = true;
    }
    for left in (1..=25).rev() {
        assert_eq!(round.remaining(), left);
        let index = round.take(0);
        assert!(!asked[index]);
        asked[index] = true;
    }
    assert!(asked.iter().all(|&a| a));
    assert_eq!(round.remaining(), 50);
    assert_eq!(round.take(7), 7);
    assert_eq!(round.take(7), 8);
}
