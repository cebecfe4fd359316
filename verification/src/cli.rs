//! Practice at a prompt: a book and the two converters, line by line.

use vstd::prelude::*;
use crate::app::TranslationDirection;
use crate::converter::kana_of;
use crate::converter::RomanjiToKanaConverter;
use crate::draw::random_below;
use crate::kanji_converter::HiragaToKanjiConverter;
use crate::kanji_converter::kanji_of;
use crate::lessons::Action;
use crate::lessons::Book;
use crate::lessons::COMMAND_BACK;
use crate::lessons::COMMAND_QUIT;
use crate::lessons::Lesson;
use crate::lessons::Menu;
use crate::lessons::Reviewer as Picker;
use crate::lessons::studied;
use crate::lessons::study_on;
use crate::rules::RuleNode;
use crate::text::same_text;

verus! {

/// The line that chooses conversion at the start.
pub const CHOICE_CONVERT: &'static str = "0";

/// The two kinds of practice: converting what is typed, or studying the
/// lessons.
pub enum Mode {
    Convert,
    Study,
}

/// What the prompt works with, as plain values.
pub struct ReviewerView {
    pub book: Seq<Lesson>,
    pub kana_rules: Seq<RuleNode>,
    pub kanji_rules: Seq<RuleNode>,
}

/// Converts what is typed at the prompt and reviews the phrases of a book.
pub struct Reviewer {
    book: Book,
    kana_converter: RomanjiToKanaConverter,
    kanji_converter: HiragaToKanjiConverter,
}

impl View for Reviewer {
    type V = ReviewerView;

    closed spec fn view(&self) -> ReviewerView {
        ReviewerView {
            book: self.book@,
            kana_rules: self.kana_converter@,
            kanji_rules: self.kanji_converter@,
        }
    }
}

impl Reviewer {
    /// A prompt on `book` with the given grammars.
    pub fn new(
        book: Book,
        kana_converter: RomanjiToKanaConverter,
        kanji_converter: HiragaToKanjiConverter,
    ) -> (reviewer: Self)
        ensures
            reviewer@ == (ReviewerView {
                book: book@,
                kana_rules: kana_converter@,
                kanji_rules: kanji_converter@,
            }),
    {
        Reviewer { book, kana_converter, kanji_converter }
    }

    /// The book under review.
    pub fn book(&self) -> (book: &Book)
        ensures
            book@ == self@.book,
    {
        &self.book
    }

    /// Which of the two kinds of practice the line `line` chooses.
    pub fn mode_for(line: &String) -> (mode: Mode)
        ensures
            line@ == CHOICE_CONVERT@ ==> mode is Convert,
            line@ != CHOICE_CONVERT@ ==> mode is Study,
    {
        if same_text(line, CHOICE_CONVERT) {
            Mode::Convert
        } else {
            Mode::Study
        }
    }

    /// Converts one line of romaji: its kana, and the kanji candidates for
    /// the whole of that kana. The quit command is not converted: it gives
    /// `None`.
    pub fn convert(&self, romanji: &String) -> (converted: Option<(String, Vec<char>)>)
        ensures
            romanji@ == COMMAND_QUIT@ ==> converted is None,
            romanji@ != COMMAND_QUIT@ ==> (converted matches Some((kana, kanji)) && kana@
                == kana_of(self@.kana_rules, romanji@) && kanji@ == kanji_of(
                self@.kanji_rules,
                kana_of(self@.kana_rules, romanji@),
            )),
    {
        if same_text(romanji, COMMAND_QUIT) {
            return None;
        }
        let kana = self.kana_converter.convert(romanji);
        let kanji = self.kanji_converter.convert(&kana);
        Some((kana, kanji))
    }

    /// Takes the line `line` at the prompt: where the prompt stands next,
    /// and what is to be done.
    pub fn study_step(&self, menu: Menu, line: &String) -> (next: (Menu, Action))
        ensures
            next == studied(self@.book, menu, line@),
    {
        study_on(&self.book, menu, line)
    }

    /// The answer that the line `line` gives to a question in the direction
    /// `direction`: the line itself when translating to English, its kana
    /// when translating to Japanese. The back command is no answer: it gives
    /// `None`.
    pub fn your_answer(
        &self,
        direction: TranslationDirection,
        line: &String,
    ) -> (answer: Option<String>)
        ensures
            line@ == COMMAND_BACK@ ==> answer is None,
            line@ != COMMAND_BACK@ ==> answer is Some && answer->0@ == match direction {
                TranslationDirection::ToEN => line@,
                TranslationDirection::ToJP => kana_of(self@.kana_rules, line@),
            },
    {
        Picker::your_answer(&self.kana_converter, direction, line)
    }

    /// The direction that the number `pick` stands for at the prompt.
    pub fn direction_for(pick: usize) -> (direction: TranslationDirection)
        ensures
            direction == prompt_direction(pick),
    {
        if pick == 0 {
            TranslationDirection::ToEN
        } else {
            TranslationDirection::ToJP
        }
    }

    /// Draws the direction of a question at random: that of one of the
    /// numbers 0 and 1.
    pub fn pick_direction() -> (direction: TranslationDirection)
        ensures
            direction == prompt_direction(0) || direction == prompt_direction(1),
    {
        Self::direction_for(random_below(2))
    }
}

/// The direction that the number `pick` stands for at the prompt: to English
/// for 0, to Japanese for any other.
pub open spec fn prompt_direction(pick: usize) -> TranslationDirection {
    if pick == 0 {
        TranslationDirection::ToEN
    } else {
        TranslationDirection::ToJP
    }
}

} // verus!
