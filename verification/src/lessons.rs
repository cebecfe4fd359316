//! The lesson book: lessons, their sections and the phrases to review.

use vstd::prelude::*;
use std::collections::HashSet;
use crate::app::TranslationDirection;
use crate::converter::kana_of;
use crate::converter::RomanjiToKanaConverter;
use crate::draw::random_below;
use crate::text::index_of;
use crate::text::parse_index;
use crate::text::same_text;

verus! {

/// A phrase to translate, with its kana and, where it has one, its kanji
/// spelling.
pub struct Phrase {
    pub en: String,
    pub jp: String,
    pub kanji: Option<String>,
}

/// A named group of phrases.
pub struct Section {
    pub name: String,
    pub phrases: Vec<Phrase>,
}

/// A lesson: its number, its names and its sections.
pub struct Lesson {
    pub index: usize,
    pub name_en: String,
    pub name_jp: String,
    pub sections: Vec<Section>,
}

/// All the lessons, in the order of the book.
pub struct Book {
    lessons: Vec<Lesson>,
}

impl View for Book {
    type V = Seq<Lesson>;

    closed spec fn view(&self) -> Seq<Lesson> {
        self.lessons@
    }
}

impl Book {
    /// A book of the given lessons.
    pub fn new(lessons: Vec<Lesson>) -> (book: Self)
        ensures
            book@ == lessons@,
    {
        Book { lessons }
    }

    /// The lessons of the book.
    pub fn get_lessons(&self) -> (lessons: &Vec<Lesson>)
        ensures
            lessons@ == self@,
    {
        &self.lessons
    }

    /// The lesson at `index`, if there is one.
    pub fn get_lesson(lessons: &Vec<Lesson>, index: usize) -> (lesson: Option<&Lesson>)
        ensures
            index < lessons@.len() ==> lesson == Some(&lessons@[index as int]),
            index >= lessons@.len() ==> lesson is None,
    {
        if index >= lessons.len() {
            return None;
        }
        Some(&lessons[index])
    }

    /// The sections of `lesson`.
    pub fn get_sections(lesson: &Lesson) -> (sections: &Vec<Section>)
        ensures
            sections == lesson.sections,
    {
        &lesson.sections
    }

    /// The section of `lesson` at `index`, if there is one.
    pub fn get_section(lesson: &Lesson, index: usize) -> (section: Option<&Section>)
        ensures
            index < lesson.sections@.len() ==> section == Some(&lesson.sections@[index as int]),
            index >= lesson.sections@.len() ==> section is None,
    {
        if index >= lesson.sections.len() {
            return None;
        }
        Some(&lesson.sections[index])
    }
}

/// The number of phrases marked as asked among the first `upto` of `asked`.
pub open spec fn asked_before(asked: Seq<bool>, upto: int) -> nat
    decreases upto,
{
    if upto <= 0 {
        0
    } else if asked[upto - 1] {
        asked_before(asked, upto - 1) + 1
    } else {
        asked_before(asked, upto - 1)
    }
}

/// The marks at the start of the next question: all cleared once every
/// phrase has been asked, else as they are.
pub open spec fn fresh(asked: Seq<bool>) -> Seq<bool> {
    if asked_before(asked, asked.len() as int) == asked.len() {
        Seq::new(asked.len(), |i: int| false)
    } else {
        asked
    }
}

/// Whether `index` is the phrase that the number `pick` names among the
/// phrases not yet asked: it is not asked, and `pick` phrases before it are
/// not asked either.
pub open spec fn names_unasked(asked: Seq<bool>, pick: int, index: int) -> bool {
    &&& 0 <= index < asked.len()
    &&& !asked[index]
    &&& index - asked_before(asked, index) == pick
}

/// No more phrases are marked than there are.
pub proof fn lemma_asked_bounded(asked: Seq<bool>, upto: int)
    requires
        0 <= upto <= asked.len(),
    ensures
        asked_before(asked, upto) <= upto,
        asked_before(asked, upto) == upto ==> forall|i: int| 0 <= i < upto ==> asked[i],
    decreases upto,
{
    if upto > 0 {
        lemma_asked_bounded(asked, upto - 1);
    }
}

/// Marks behind `upto` do not count among the first `upto`.
pub proof fn lemma_asked_before_update(asked: Seq<bool>, upto: int, index: int, mark: bool)
    requires
        0 <= upto <= index < asked.len(),
    ensures
        asked_before(asked.update(index, mark), upto) == asked_before(asked, upto),
    decreases upto,
{
    if upto > 0 {
        lemma_asked_before_update(asked, upto - 1, index, mark);
    }
}

/// Marking a phrase that was not asked raises the count behind it by one.
pub proof fn lemma_asked_counts_mark(asked: Seq<bool>, upto: int, index: int)
    requires
        0 <= index < upto <= asked.len(),
        !asked[index],
    ensures
        asked_before(asked.update(index, true), upto) == asked_before(asked, upto) + 1,
    decreases upto,
{
    if upto - 1 == index {
        lemma_asked_before_update(asked, index, index, true);
    } else {
        lemma_asked_counts_mark(asked, upto - 1, index);
    }
}

/// With no marks nothing counts as asked.
pub proof fn lemma_none_asked(count: nat, upto: int)
    requires
        0 <= upto <= count,
    ensures
        asked_before(Seq::new(count, |i: int| false), upto) == 0,
    decreases upto,
{
    if upto > 0 {
        lemma_none_asked(count, upto - 1);
    }
}

/// The marks that the set `asked` of phrase indices stands for in a section
/// of `phrases` phrases: for each phrase, whether it has been asked.
pub open spec fn marks(asked: Set<usize>, phrases: usize) -> Seq<bool> {
    Seq::new(phrases as nat, |i: int| asked.contains(i as usize))
}

/// What counts as asked among the first `upto` phrases depends on their
/// marks alone.
pub proof fn lemma_asked_prefix(a: Seq<bool>, b: Seq<bool>, upto: int)
    requires
        0 <= upto <= a.len(),
        upto <= b.len(),
        forall|i: int| 0 <= i < upto ==> a[i] == b[i],
    ensures
        asked_before(a, upto) == asked_before(b, upto),
    decreases upto,
{
    if upto > 0 {
        lemma_asked_prefix(a, b, upto - 1);
    }
}

/// A set of phrase indices has as many members as it stands for marks.
pub proof fn lemma_marks_count(asked: Set<usize>, phrases: usize)
    requires
        asked.finite(),
        forall|index: usize| asked.contains(index) ==> index < phrases,
    ensures
        asked.len() == asked_before(marks(asked, phrases), phrases as int),
    decreases phrases,
{
    if phrases == 0 {
        assert(asked =~= Set::<usize>::empty());
    } else {
        let last = (phrases - 1) as usize;
        let rest = asked.remove(last);
        lemma_marks_count(rest, last);
        lemma_asked_prefix(marks(asked, phrases), marks(rest, last), last as int);
    }
}

/// One round of questions on a section: which of its phrases have been
/// asked. Every phrase is asked once before any is asked again.
pub struct Round {
    asked: HashSet<usize>,
    phrases: usize,
}

impl View for Round {
    type V = Seq<bool>;

    closed spec fn view(&self) -> Seq<bool> {
        marks(self.asked@, self.phrases)
    }
}

impl Round {
    /// Only phrases of the section are held as asked.
    #[verifier::type_invariant]
    spec fn within(self) -> bool {
        &&& self.asked@.finite()
        &&& forall|index: usize| self.asked@.contains(index) ==> index < self.phrases
    }

    /// A round on a section of `phrases` phrases, none asked yet.
    pub fn new(phrases: usize) -> (round: Self)
        ensures
            round@ == Seq::new(phrases as nat, |i: int| false),
    {
        let round = Round { asked: HashSet::new(), phrases };
        assert(round@ =~= Seq::new(phrases as nat, |i: int| false));
        round
    }

    /// The number of phrases that the next question can be drawn from.
    pub fn remaining(&self) -> (left: usize)
        ensures
            left == self@.len() - asked_before(fresh(self@), self@.len() as int),
    {
        proof {
            use_type_invariant(self);
            lemma_marks_count(self.asked@, self.phrases);
            lemma_asked_bounded(self@, self.phrases as int);
            lemma_none_asked(self.phrases as nat, self.phrases as int);
        }
        if self.asked.len() == self.phrases {
            self.phrases
        } else {
            self.phrases - self.asked.len()
        }
    }

    /// Marks as asked the phrase that `pick` names among those not yet
    /// asked, and returns its index. Where every phrase has been asked, a
    /// new round starts first.
    pub fn take(&mut self, pick: usize) -> (index: usize)
        requires
            pick < old(self)@.len() - asked_before(fresh(old(self)@), old(self)@.len() as int),
        ensures
            names_unasked(fresh(old(self)@), pick as int, index as int),
            final(self)@ == fresh(old(self)@).update(index as int, true),
    {
        proof {
            use_type_invariant(&*self);
            lemma_marks_count(self.asked@, self.phrases);
        }
        let phrases = self.phrases;
        let mut asked: HashSet<usize> = HashSet::new();
        std::mem::swap(&mut self.asked, &mut asked);
        // start a new round once every phrase has been asked
        if asked.len() == phrases {
            asked.clear();
        }
        let ghost start = marks(asked@, phrases);
        assert(start =~= fresh(old(self)@));
        let mut index: usize = 0;
        let mut passed: usize = 0;
        while asked.contains(&index) || passed < pick
            invariant
                start == marks(asked@, phrases),
                index < phrases,
                passed == index - asked_before(start, index as int),
                passed <= pick,
                pick < phrases - asked_before(start, phrases as int),
            decreases phrases - index,
        {
            if !asked.contains(&index) {
                passed += 1;
            }
            index += 1;
        }
        asked.insert(index);
        assert(marks(asked@, phrases) =~= start.update(index as int, true));
        *self = Round { asked, phrases };
        index
    }
}

/// The line that ends the practice.
pub const COMMAND_QUIT: &'static str = ":q";

/// The line that leads back from the sections to the lessons.
pub const COMMAND_BACK: &'static str = ":b";

/// Where the prompt stands: at the list of lessons, or at the list of the
/// sections of the lesson of the given index.
pub enum Menu {
    Lessons,
    Sections(usize),
}

/// What is to be done once a line is read: nothing but to prompt again, to
/// end the practice, to practise the section of the given lesson and section
/// indices, or to practise the whole lesson of the given index.
pub enum Action {
    Wait,
    Quit,
    ReviewSection(usize, usize),
    ReviewLesson(usize),
}

/// What the line `line` leads to when the prompt stands at `menu`.
///
/// At the list of lessons, the number of a lesson of the book leads to its
/// sections, and the quit command ends the practice. At the list of
/// sections, the number of a section of the lesson has that section
/// practised and any other number the whole lesson, and the back command
/// leads back to the lessons. Every other line leaves the prompt where it
/// stands.
pub open spec fn studied(book: Seq<Lesson>, menu: Menu, line: Seq<char>) -> (Menu, Action) {
    match menu {
        Menu::Lessons => match index_of(line) {
            Some(lesson) => if lesson < book.len() {
                (Menu::Sections(lesson), Action::Wait)
            } else {
                (Menu::Lessons, Action::Wait)
            },
            None => if line == COMMAND_QUIT@ {
                (Menu::Lessons, Action::Quit)
            } else {
                (Menu::Lessons, Action::Wait)
            },
        },
        Menu::Sections(lesson) => match index_of(line) {
            Some(section) => if lesson < book.len() && section
                < book[lesson as int].sections@.len() {
                (menu, Action::ReviewSection(lesson, section))
            } else {
                (menu, Action::ReviewLesson(lesson))
            },
            None => if line == COMMAND_BACK@ {
                (Menu::Lessons, Action::Wait)
            } else {
                (menu, Action::Wait)
            },
        },
    }
}

/// Takes the line `line` at the prompt on `book`.
pub(crate) fn study_on(book: &Book, menu: Menu, line: &String) -> (next: (Menu, Action))
    ensures
        next == studied(book@, menu, line@),
{
    let lessons = book.get_lessons();
    match menu {
        Menu::Lessons => match parse_index(line) {
            Some(lesson) => {
                if lesson < lessons.len() {
                    (Menu::Sections(lesson), Action::Wait)
                } else {
                    (Menu::Lessons, Action::Wait)
                }
            },
            None => {
                if same_text(line, COMMAND_QUIT) {
                    (Menu::Lessons, Action::Quit)
                } else {
                    (Menu::Lessons, Action::Wait)
                }
            },
        },
        Menu::Sections(lesson) => match parse_index(line) {
            Some(section) => {
                let known = match Book::get_lesson(lessons, lesson) {
                    Some(found) => Book::get_section(found, section).is_some(),
                    None => false,
                };
                if known {
                    (Menu::Sections(lesson), Action::ReviewSection(lesson, section))
                } else {
                    (Menu::Sections(lesson), Action::ReviewLesson(lesson))
                }
            },
            None => {
                if same_text(line, COMMAND_BACK) {
                    (Menu::Lessons, Action::Wait)
                } else {
                    (Menu::Sections(lesson), Action::Wait)
                }
            },
        },
    }
}

/// Reviews the phrases of a book.
pub struct Reviewer {
    book: Book,
}

impl View for Reviewer {
    type V = Seq<Lesson>;

    closed spec fn view(&self) -> Seq<Lesson> {
        self.book@
    }
}

impl Reviewer {
    /// Practice on `book`.
    pub fn new(book: Book) -> (reviewer: Self)
        ensures
            reviewer@ == book@,
    {
        Reviewer { book }
    }

    /// The book under practice.
    pub fn book(&self) -> (book: &Book)
        ensures
            book@ == self@,
    {
        &self.book
    }

    /// The lessons of the book.
    pub fn get_lessons(&self) -> (lessons: &Vec<Lesson>)
        ensures
            lessons@ == self@,
    {
        self.book.get_lessons()
    }

    /// The lesson at `index`, if there is one.
    pub fn get_lesson(&self, index: usize) -> (lesson: Option<&Lesson>)
        ensures
            index < self@.len() ==> lesson == Some(&self@[index as int]),
            index >= self@.len() ==> lesson is None,
    {
        Book::get_lesson(self.book.get_lessons(), index)
    }

    /// The section of `lesson` at `index`, if there is one.
    pub fn get_section<'a>(
        &self,
        lesson: &'a Lesson,
        index: usize,
    ) -> (section: Option<&'a Section>)
        ensures
            index < lesson.sections@.len() ==> section == Some(&lesson.sections@[index as int]),
            index >= lesson.sections@.len() ==> section is None,
    {
        Book::get_section(lesson, index)
    }

    /// Takes the line `line` at the prompt: where the prompt stands next,
    /// and what is to be done.
    pub fn study_step(&self, menu: Menu, line: &String) -> (next: (Menu, Action))
        ensures
            next == studied(self@, menu, line@),
    {
        study_on(&self.book, menu, line)
    }

    /// The answer that the line `line` gives to a question in the direction
    /// `direction`: the line itself when translating to English, its kana
    /// by `converter` when translating to Japanese. The back command is no
    /// answer: it gives `None`.
    pub fn your_answer(
        converter: &RomanjiToKanaConverter,
        direction: TranslationDirection,
        line: &String,
    ) -> (answer: Option<String>)
        ensures
            line@ == COMMAND_BACK@ ==> answer is None,
            line@ != COMMAND_BACK@ ==> answer is Some && answer->0@ == match direction {
                TranslationDirection::ToEN => line@,
                TranslationDirection::ToJP => kana_of(converter@, line@),
            },
    {
        if same_text(line, COMMAND_BACK) {
            return None;
        }
        match direction {
            TranslationDirection::ToEN => Some(line.clone()),
            TranslationDirection::ToJP => Some(converter.convert(line)),
        }
    }

    /// Draws a phrase of `lesson` at random: first a section, then a phrase
    /// of that section. Returns the indices of both, or `None` where the
    /// lesson has no section or the section drawn has no phrase.
    pub fn pick_phrase(lesson: &Lesson) -> (pick: Option<(usize, usize)>)
        ensures
            pick matches Some((section, phrase)) ==> section < lesson.sections@.len() && phrase
                < lesson.sections@[section as int].phrases@.len(),
            pick is None ==> lesson.sections@.len() == 0 || exists|section: int|
                0 <= section < lesson.sections@.len() && (
                #[trigger] lesson.sections@[section]).phrases@.len() == 0,
    {
        if lesson.sections.len() == 0 {
            return None;
        }
        let section = random_below(lesson.sections.len());
        if lesson.sections[section].phrases.len() == 0 {
            return None;
        }
        let phrase = random_below(lesson.sections[section].phrases.len());
        Some((section, phrase))
    }

    /// Draws at random a phrase that `round` has not asked yet and marks it
    /// as asked; where every phrase has been asked, a new round starts
    /// first. Returns the index of the phrase, or `None` where the section
    /// has no phrases.
    pub fn pick_unasked(round: &mut Round) -> (pick: Option<usize>)
        ensures
            old(round)@.len() == 0 ==> pick is None && final(round)@ == old(round)@,
            old(round)@.len() > 0 ==> pick is Some && pick->0 < old(round)@.len() && !fresh(
                old(round)@,
            )[pick->0 as int] && final(round)@ == fresh(old(round)@).update(pick->0 as int, true),
    {
        let left = round.remaining();
        proof {
            lemma_asked_bounded(round@, round@.len() as int);
            lemma_none_asked(round@.len(), round@.len() as int);
        }
        if left == 0 {
            return None;
        }
        let pick = random_below(left);
        Some(round.take(pick))
    }
}

} // verus!
