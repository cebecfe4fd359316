//! The session of the keyboard: the romaji typed so far, its kana, the kanji
//! spans laid over the kana, and the composite text they produce.

use vstd::prelude::*;
use crate::converter::RomanjiToKanaConverter;
use crate::draw::random_below;
use crate::kanji_converter::HiragaToKanjiConverter;
use crate::kanji_converter::kanji_of;
use crate::lessons::Book;
use crate::overlay::apart;
use crate::overlay::applies;
use crate::overlay::ascending;
use crate::overlay::fits;
use crate::overlay::KanjiSpan;
use crate::overlay::lemma_filter_push;
use crate::overlay::lemma_in_sequence;
use crate::overlay::lemma_ordered;
use crate::overlay::lemma_ordered_unique;
use crate::overlay::lemma_prune_drops;
use crate::overlay::ordered;
use crate::overlay::overlay;
use crate::overlay::overlay_from;
use crate::overlay::pruned;
use crate::overlay::span_end;
use crate::overlay::span_leq;
use crate::overlay::span_order;
use crate::overlay::span_valid;
use crate::overlay::survives;
use crate::session::AppView;
use crate::session::asking;
use crate::session::can_ask;
use crate::session::cleared;
use crate::session::committed;
use crate::session::ContextView;
use crate::session::deleted;
use crate::session::extended;
use crate::session::fair;
use crate::session::fitted;
use crate::session::Key;
use crate::session::left_review;
use crate::session::lemma_refreshed_well_formed;
use crate::session::lemma_spanned_well_formed;
use crate::session::moved_left;
use crate::session::moved_right;
use crate::session::next_section;
use crate::session::phrases_in;
use crate::session::Picks;
use crate::session::quits;
use crate::session::recorded;
use crate::session::refreshed;
use crate::session::review_step;
use crate::session::sections_of;
use crate::session::select_step;
use crate::session::selected_candidates;
use crate::session::selecting;
use crate::session::selection_inside;
use crate::session::shrunk;
use crate::session::spanned;
use crate::session::step;
use crate::session::typed;
use crate::session::well_formed;
use crate::session::wrap_next;
use crate::session::wrap_prev;
use crate::text::char_count;
use crate::text::replace_chars;
use crate::text::string_pop;
use crate::text::string_push;
use crate::text::substring;

verus! {

/// The screen that is shown.
pub enum CurrentScreen {
    Welcome,
    LessonSelect,
    Review,
}

/// The list that the lesson selection screen moves in.
pub enum CurrentSelection {
    Lesson,
    Section,
}

/// The direction in which a phrase is to be translated.
#[derive(Debug, Copy, Clone, PartialEq)]
pub enum TranslationDirection {
    ToEN,
    ToJP,
}

/// Where the review stands: the screen, the lesson, section and phrase under
/// review, and the previous question with its answer.
pub struct Context {
    pub current_screen: CurrentScreen,
    pub current_selection: CurrentSelection,
    pub lesson: usize,
    pub section: usize,
    pub phrase: usize,
    pub prev_section: Option<usize>,
    pub prev_phrase: Option<usize>,
    pub translation_direction: TranslationDirection,
    pub prev_translation_direction: Option<TranslationDirection>,
    pub prev_answer: Option<String>,
}

impl View for Context {
    type V = ContextView;

    open spec fn view(&self) -> ContextView {
        ContextView {
            current_screen: self.current_screen,
            current_selection: self.current_selection,
            lesson: self.lesson,
            section: self.section,
            phrase: self.phrase,
            prev_section: self.prev_section,
            prev_phrase: self.prev_phrase,
            translation_direction: self.translation_direction,
            prev_translation_direction: self.prev_translation_direction,
            prev_answer: match self.prev_answer {
                Some(answer) => Some(answer@),
                None => None,
            },
        }
    }
}

/// The context at start: the welcome screen, the first lesson, nothing
/// answered yet.
pub open spec fn initial_context() -> ContextView {
    ContextView {
        current_screen: CurrentScreen::Welcome,
        current_selection: CurrentSelection::Lesson,
        lesson: 0,
        section: 0,
        phrase: 0,
        prev_section: None,
        prev_phrase: None,
        translation_direction: TranslationDirection::ToEN,
        prev_translation_direction: None,
        prev_answer: None,
    }
}

impl Context {
    /// The context at start.
    pub fn new() -> (context: Self)
        ensures
            context@ == initial_context(),
    {
        Context {
            current_screen: CurrentScreen::Welcome,
            current_selection: CurrentSelection::Lesson,
            lesson: 0,
            section: 0,
            phrase: 0,
            prev_section: None,
            prev_phrase: None,
            translation_direction: TranslationDirection::ToEN,
            prev_translation_direction: None,
            prev_answer: None,
        }
    }
}

/// The session of the keyboard.
pub struct App {
    book: Book,
    kana_converter: RomanjiToKanaConverter,
    kanji_converter: HiragaToKanjiConverter,
    context: Context,
    romanji: String,
    kana: String,
    kanji: String,
    kana_offset: usize,
    kana_len: usize,
    default_candidate: usize,
    kanji_offsets: Vec<KanjiSpan>,
}

impl View for App {
    type V = AppView;

    closed spec fn view(&self) -> AppView {
        AppView {
            book: self.book@,
            kana_rules: self.kana_converter@,
            kanji_rules: self.kanji_converter@,
            context: self.context@,
            romanji: self.romanji@,
            kana: self.kana@,
            kanji: self.kanji@,
            kana_offset: self.kana_offset,
            kana_len: self.kana_len,
            default_candidate: self.default_candidate,
            spans: self.kanji_offsets@,
        }
    }
}

impl App {
    /// The session is in order: its kana is the conversion of its romaji,
    /// and its spans and its selection cover at least one character each and
    /// end at positions that a `usize` can hold.
    pub open spec fn wf(&self) -> bool {
        well_formed(self@)
    }

    /// A session on the given book and grammars: on the welcome screen, with
    /// nothing typed, the selection on the first character, no spans, and
    /// the first candidate as the default.
    pub fn new(
        book: Book,
        kana_converter: RomanjiToKanaConverter,
        kanji_converter: HiragaToKanjiConverter,
    ) -> (app: Self)
        ensures
            app.wf(),
            app@ == (AppView {
                book: book@,
                kana_rules: kana_converter@,
                kanji_rules: kanji_converter@,
                context: initial_context(),
                romanji: Seq::empty(),
                kana: Seq::empty(),
                kanji: Seq::empty(),
                kana_offset: 0,
                kana_len: 1,
                default_candidate: 0,
                spans: Seq::empty(),
            }),
    {
        App {
            book,
            kana_converter,
            kanji_converter,
            context: Context::new(),
            romanji: String::new(),
            kana: String::new(),
            kanji: String::new(),
            kana_offset: 0,
            kana_len: 1,
            default_candidate: 0,
            kanji_offsets: Vec::new(),
        }
    }

    /// Types `value`: it is added to the romaji, and the kana is converted
    /// anew from the whole of it.
    pub fn push_char(&mut self, value: char)
        ensures
            final(self)@ == typed(old(self)@, value),
    {
        string_push(&mut self.romanji, value);
        self.kana = self.kana_converter.convert(&self.romanji);
    }

    /// Deletes the last character of the romaji, if there is one, and
    /// converts the kana anew from what is left.
    pub fn pop_char(&mut self)
        ensures
            final(self)@ == deleted(old(self)@),
    {
        string_pop(&mut self.romanji);
        self.kana = self.kana_converter.convert(&self.romanji);
    }

    /// Lays the span `offset` over the kana, unless its candidate index is
    /// out of range for the kana it covers: then nothing changes. Before the
    /// span is stored, every stored span that overlaps its range is removed;
    /// spans that only touch it stay.
    pub fn push_kanji_offset(&mut self, offset: (usize, usize, usize))
        requires
            old(self).wf(),
            offset.1 >= 1,
            offset.0 + offset.1 <= old(self)@.kana.len(),
        ensures
            final(self).wf(),
            final(self)@ == spanned(old(self)@, offset),
    {
        let count = char_count(&self.kana);
        let start = offset.0;
        let end = offset.0 + offset.1;
        let kanji_list_offset = offset.2;
        let kana_substr = substring(&self.kana, start, end);
        let kanji_list = self.kanji_converter.convert(&kana_substr);
        if kanji_list_offset < kanji_list.len() {
            assert(self.kanji_offsets@ == self@.spans);
            proof {
                lemma_spanned_well_formed(self@, offset);
            }
            let mut kept = without_collisions(&self.kanji_offsets, offset);
            kept.push(offset);
            self.kanji_offsets = kept;
        }
    }

    /// Brings the spans and the composite text up to date with the kana.
    ///
    /// The spans that no longer end within the kana are dropped, and the
    /// others are put in ascending order. The composite text is the kana with
    /// the spans applied in that order: each puts the glyph of its candidate
    /// index, looked up afresh for the kana it covers, in place of that kana.
    /// A span that has no such glyph is passed over.
    pub fn update_kanji(&mut self)
        requires
            old(self).wf(),
        ensures
            final(self).wf(),
            final(self)@ == refreshed(old(self)@),
    {
        let count = char_count(&self.kana);
        assert(self.kanji_offsets@ == self@.spans);
        proof {
            lemma_refreshed_well_formed(self@);
        }
        // drop the spans that a backspace has left without kana
        let kept = within(&self.kanji_offsets, count);
        // sort to keep the adjusted offsets valid
        let sorted = sort_spans(&kept);
        let mut kanji = self.kana.clone();
        let mut offset_adjust: usize = 0;
        let mut covered: usize = 0;
        let ghost rules = self@.kanji_rules;
        let ghost kana = self@.kana;
        let ghost spans = sorted@;
        let ghost mut done = Seq::<char>::empty();
        proof {
            lemma_ordered(kept@);
            assert forall|k: int| 0 <= k < spans.len() implies span_end(#[trigger] spans[k])
                <= count by {
                assert(spans.contains(spans[k]));
                lemma_prune_drops(self@.spans, count as int, spans[k]);
            }
            assert(done + kana.subrange(0, kana.len() as int) =~= kana);
        }
        let mut i: usize = 0;
        while i < sorted.len()
            invariant
                i <= sorted.len(),
                sorted@ == spans,
                count == kana.len(),
                self@.kana == kana,
                self@.kanji_rules == rules,
                forall|k: int| 0 <= k < spans.len() ==> span_valid(#[trigger] spans[k]),
                forall|k: int| 0 <= k < spans.len() ==> span_end(#[trigger] spans[k]) <= count,
                ascending(spans),
                apart(spans),
                forall|k: int| i <= k < spans.len() ==> covered <= (#[trigger] spans[k]).0,
                offset_adjust <= covered <= count,
                done.len() == covered - offset_adjust,
                kanji@ == done + kana.subrange(covered as int, kana.len() as int),
                done + overlay_from(rules, kana, spans, i as int, covered as int) == overlay(
                    rules,
                    kana,
                    spans,
                ),
            decreases sorted.len() - i,
        {
            let span = sorted[i];
            let start = span.0;
            let end = span.0 + span.1;
            let kanji_list_offset = span.2;
            let kana_substr = substring(&self.kana, start, end);
            let kanji_list = self.kanji_converter.convert(&kana_substr);
            if kanji_list_offset < kanji_list.len() {
                let glyph = kanji_list[kanji_list_offset];
                let ghost before = kanji@;
                kanji = replace_chars(&kanji, start - offset_adjust, end - offset_adjust, glyph);
                proof {
                    let written = done + kana.subrange(covered as int, start as int).push(glyph);
                    assert(applies(rules, kana, span, covered as int));
                    assert(before.subrange(0, start - offset_adjust) =~= done + kana.subrange(
                        covered as int,
                        start as int,
                    ));
                    assert(before.subrange(end - offset_adjust, before.len() as int)
                        =~= kana.subrange(end as int, kana.len() as int));
                    assert(kanji@ =~= written + kana.subrange(end as int, kana.len() as int));
                    assert(written + overlay_from(rules, kana, spans, i + 1, end as int)
                        =~= done + overlay_from(rules, kana, spans, i as int, covered as int));
                    done = written;
                    assert forall|k: int| i < k < spans.len() implies end <= (
                    #[trigger] spans[k]).0 by {
                        lemma_in_sequence(spans, i as int, k);
                    }
                }
                // the glyph is one character where the kana was `span.1`
                offset_adjust += span.1 - 1;
                covered = end;
            }
            i += 1;
        }
        proof {
            assert(done + kana.subrange(covered as int, kana.len() as int) =~= overlay(
                rules,
                kana,
                spans,
            ));
        }
        self.kanji_offsets = sorted;
        self.kanji = kanji;
    }

    /// The candidate glyphs for the selected kana, best first; none where
    /// the selection does not lie within the kana.
    pub fn highlighted_kanji(&self) -> (candidates: Vec<char>)
        ensures
            candidates@ == selected_candidates(self@),
    {
        let count = char_count(&self.kana);
        if self.kana_offset <= count && self.kana_len <= count - self.kana_offset {
            let kana_substr = substring(
                &self.kana,
                self.kana_offset,
                self.kana_offset + self.kana_len,
            );
            self.kanji_converter.convert(&kana_substr)
        } else {
            Vec::new()
        }
    }

    /// Sets the candidate that Tab commits a selection with.
    pub fn set_default_candidate(&mut self, candidate: usize)
        ensures
            final(self)@ == (AppView { default_candidate: candidate, ..old(self)@ }),
    {
        self.default_candidate = candidate;
    }

    /// The spans that are stored, to read.
    pub fn kanji_offsets(&self) -> (spans: &Vec<(usize, usize, usize)>)
        ensures
            spans@ == self@.spans,
    {
        &self.kanji_offsets
    }

    /// The book of the session.
    pub fn book(&self) -> (book: &Book)
        ensures
            book@ == self@.book,
    {
        &self.book
    }

    /// Where the review stands.
    pub fn context(&self) -> (context: &Context)
        ensures
            context@ == self@.context,
    {
        &self.context
    }

    /// The selection: the offset of its first kana character and its length.
    pub fn selection(&self) -> (selection: (usize, usize))
        ensures
            selection == (self@.kana_offset, self@.kana_len),
    {
        (self.kana_offset, self.kana_len)
    }

    /// Moves the selection one character to the right, or extends it by one
    /// character, as far as the kana reaches.
    fn select_right(&mut self, extend: bool)
        requires
            old(self).wf(),
        ensures
            final(self).wf(),
            extend ==> final(self)@ == selecting(
                old(self)@,
                extended(old(self)@.kana_offset, old(self)@.kana_len, old(self)@.kana.len() as int),
            ),
            !extend ==> final(self)@ == selecting(
                old(self)@,
                moved_right(
                    old(self)@.kana_offset,
                    old(self)@.kana_len,
                    old(self)@.kana.len() as int,
                ),
            ),
            selection_inside(old(self)@) ==> selection_inside(final(self)@),
    {
        let count = char_count(&self.kana);
        if extend {
            if self.kana_offset + self.kana_len < count {
                self.kana_len += 1;
            }
        } else {
            if self.kana_offset + self.kana_len < count {
                self.kana_offset += 1;
            }
            self.kana_len = 1;
        }
    }

    /// Moves the selection one character to the left, or shrinks it by one
    /// character, as far as that can be done.
    fn select_left(&mut self, shrink: bool)
        requires
            old(self).wf(),
        ensures
            final(self).wf(),
            shrink ==> final(self)@ == selecting(
                old(self)@,
                shrunk(old(self)@.kana_offset, old(self)@.kana_len),
            ),
            !shrink ==> final(self)@ == selecting(
                old(self)@,
                moved_left(old(self)@.kana_offset, old(self)@.kana_len),
            ),
    {
        if shrink {
            if self.kana_len > 1 {
                self.kana_len -= 1;
            }
        } else {
            if self.kana_offset > 0 {
                self.kana_offset -= 1;
            }
            self.kana_len = 1;
        }
    }

    /// Brings the selection back inside the kana.
    fn fit_selection(&mut self)
        requires
            old(self).wf(),
        ensures
            final(self).wf(),
            final(self)@ == selecting(
                old(self)@,
                fitted(old(self)@.kana_offset, old(self)@.kana_len, old(self)@.kana.len() as int),
            ),
            selection_inside(final(self)@),
    {
        let count = char_count(&self.kana);
        if count > 0 && self.kana_offset + self.kana_len > count {
            if self.kana_len <= count {
                // the selection keeps its length and moves left by the excess
                self.kana_offset = count - self.kana_len;
            } else {
                self.kana_offset = 0;
                self.kana_len = count;
            }
        }
    }

    /// Lays the selection over the kana as a span with the candidate
    /// `candidate`, if the selection lies within the kana.
    fn commit_selection(&mut self, candidate: usize)
        requires
            old(self).wf(),
        ensures
            final(self).wf(),
            final(self)@ == committed(old(self)@, candidate),
    {
        let count = char_count(&self.kana);
        if self.kana_offset + self.kana_len <= count {
            self.push_kanji_offset((self.kana_offset, self.kana_len, candidate));
        }
    }

    /// Clears what was typed and puts the selection on the first character.
    fn clear(&mut self)
        requires
            old(self).wf(),
        ensures
            final(self).wf(),
            final(self)@ == cleared(old(self)@),
    {
        self.romanji = String::new();
        self.kana = String::new();
        self.kanji = String::new();
        self.kana_offset = 0;
        self.kana_len = 1;
    }

    /// Whether the numbers drawn name a phrase of the lesson under review.
    fn can_ask(&self, picks: &Picks) -> (possible: bool)
        ensures
            possible == can_ask(self@, *picks),
    {
        let section_index = match self.context.current_selection {
            CurrentSelection::Lesson => picks.section,
            CurrentSelection::Section => self.context.section,
        };
        match Book::get_lesson(self.book.get_lessons(), self.context.lesson) {
            Some(lesson) => match Book::get_section(lesson, section_index) {
                Some(section) => picks.phrase < section.phrases.len(),
                None => false,
            },
            None => false,
        }
    }

    /// The number of sections of the lesson under review.
    fn section_count(&self) -> (count: usize)
        ensures
            count == sections_of(self@).len(),
    {
        match Book::get_lesson(self.book.get_lessons(), self.context.lesson) {
            Some(lesson) => lesson.sections.len(),
            None => 0,
        }
    }

    /// The number of phrases of the section `section` of the lesson under
    /// review.
    fn phrase_count(&self, section: usize) -> (count: usize)
        ensures
            count == phrases_in(self@, section).len(),
    {
        match Book::get_lesson(self.book.get_lessons(), self.context.lesson) {
            Some(lesson) => match Book::get_section(lesson, section) {
                Some(section) => section.phrases.len(),
                None => 0,
            },
            None => 0,
        }
    }

    /// Starts the review of the drawn phrase.
    fn ask(&mut self, picks: &Picks)
        ensures
            final(self)@ == (AppView {
                context: asking(old(self)@.context, next_section(old(self)@, *picks), *picks),
                ..old(self)@
            }),
    {
        self.context.current_screen = CurrentScreen::Review;
        if picks.direction == 0 {
            self.context.translation_direction = TranslationDirection::ToJP;
        } else {
            self.context.translation_direction = TranslationDirection::ToEN;
        }
        match self.context.current_selection {
            CurrentSelection::Lesson => {
                self.context.section = picks.section;
            },
            CurrentSelection::Section => {},
        }
        self.context.phrase = picks.phrase;
    }

    /// Does what `key` does on the lesson selection screen.
    fn select_key(&mut self, key: Key, picks: &Picks)
        ensures
            final(self)@ == select_step(old(self)@, key, *picks),
    {
        let lessons = self.book.get_lessons().len();
        let sections = self.section_count();
        match key {
            Key::Enter => {
                if self.can_ask(picks) {
                    self.ask(picks);
                }
            },
            Key::Down => {
                match self.context.current_selection {
                    CurrentSelection::Lesson => {
                        self.context.lesson = next_index(self.context.lesson, lessons);
                    },
                    CurrentSelection::Section => {
                        self.context.section = next_index(self.context.section, sections);
                    },
                }
            },
            Key::Up => {
                match self.context.current_selection {
                    CurrentSelection::Lesson => {
                        self.context.lesson = prev_index(self.context.lesson, lessons);
                    },
                    CurrentSelection::Section => {
                        self.context.section = prev_index(self.context.section, sections);
                    },
                }
            },
            Key::Right => {
                match self.context.current_selection {
                    CurrentSelection::Lesson => {
                        self.context.current_selection = CurrentSelection::Section;
                        self.context.section = 0;
                    },
                    CurrentSelection::Section => {},
                }
            },
            Key::Left => {
                match self.context.current_selection {
                    CurrentSelection::Lesson => {},
                    CurrentSelection::Section => {
                        self.context.current_selection = CurrentSelection::Lesson;
                        self.context.section = 0;
                    },
                }
            },
            _ => {},
        }
    }

    /// Records the question under review, with its answer, as the previous
    /// one.
    fn record(&mut self)
        ensures
            final(self)@ == (AppView { context: recorded(old(self)@), ..old(self)@ }),
    {
        self.context.prev_section = Some(self.context.section);
        self.context.prev_phrase = Some(self.context.phrase);
        self.context.prev_translation_direction = Some(self.context.translation_direction);
        match self.context.translation_direction {
            TranslationDirection::ToEN => {
                self.context.prev_answer = Some(self.romanji.clone());
            },
            TranslationDirection::ToJP => {
                self.context.prev_answer = Some(self.kanji.clone());
            },
        }
    }

    /// Goes back from the review to the list of lessons.
    fn leave_review(&mut self)
        ensures
            final(self)@ == (AppView { context: left_review(old(self)@.context), ..old(self)@ }),
    {
        self.context.current_screen = CurrentScreen::LessonSelect;
        self.context.current_selection = CurrentSelection::Lesson;
        self.context.lesson = 0;
        self.context.section = 0;
        self.context.prev_section = None;
        self.context.prev_phrase = None;
        self.context.prev_translation_direction = None;
        self.context.prev_answer = None;
    }

    /// Does what `key` does on the review screen.
    fn review_key(&mut self, key: Key, shift: bool, picks: &Picks)
        requires
            old(self).wf(),
        ensures
            final(self).wf(),
            final(self)@ == review_step(old(self)@, key, shift, *picks),
            selection_inside(old(self)@) ==> selection_inside(final(self)@),
    {
        match key {
            Key::Esc => {
                self.leave_review();
                self.clear();
            },
            Key::Enter => {
                if self.can_ask(picks) {
                    let ghost before = self@;
                    self.record();
                    assert(next_section(self@, *picks) == next_section(before, *picks));
                    self.ask(picks);
                    self.clear();
                }
            },
            Key::Tab => {
                if char_count(&self.kana) > 0 {
                    self.commit_selection(self.default_candidate);
                }
            },
            Key::Right => {
                self.select_right(shift);
            },
            Key::Left => {
                self.select_left(shift);
            },
            Key::Char(value) => {
                self.push_char(value);
                self.fit_selection();
            },
            Key::Backspace => {
                self.pop_char();
                let count = char_count(&self.kana);
                if count > 0 && self.kana_len > 1 && self.kana_offset + self.kana_len > count {
                    self.kana_len -= 1;
                }
                self.fit_selection();
            },
            _ => {},
        }
    }

    /// Does what `key` does, with `shift` held or not, given the numbers
    /// `picks` for a new question, and says whether the key ends the session.
    ///
    /// Unless the key ends the session, the spans and the composite text are
    /// brought up to date afterwards.
    pub fn apply_key(&mut self, key: Key, shift: bool, picks: Picks) -> (quit: bool)
        requires
            old(self).wf(),
        ensures
            final(self).wf(),
            quit == quits(old(self)@, key),
            final(self)@ == step(old(self)@, key, shift, picks),
            selection_inside(old(self)@) ==> selection_inside(final(self)@),
    {
        match self.context.current_screen {
            CurrentScreen::Welcome => {
                match key {
                    Key::Esc => {
                        return true;
                    },
                    _ => {
                        self.context.current_screen = CurrentScreen::LessonSelect;
                    },
                }
            },
            CurrentScreen::LessonSelect => {
                match key {
                    Key::Esc => {
                        return true;
                    },
                    _ => {
                        self.select_key(key, &picks);
                    },
                }
            },
            CurrentScreen::Review => {
                self.review_key(key, shift, &picks);
            },
        }
        self.update_kanji();
        false
    }

    /// Draws the numbers for a new question: a direction, a section of the
    /// lesson under review, and a phrase of the section that will be asked
    /// from. Where there is nothing to choose from, the number is 0.
    fn draw(&self) -> (picks: Picks)
        ensures
            fair(self@, picks),
            sections_of(self@).len() == 0 ==> picks.section == 0,
            phrases_in(self@, next_section(self@, picks)).len() == 0 ==> picks.phrase == 0,
    {
        let direction = random_below(2);
        let sections = self.section_count();
        let section = if sections > 0 {
            random_below(sections)
        } else {
            0
        };
        let asked = match self.context.current_selection {
            CurrentSelection::Lesson => section,
            CurrentSelection::Section => self.context.section,
        };
        let phrases = self.phrase_count(asked);
        let phrase = if phrases > 0 {
            random_below(phrases)
        } else {
            0
        };
        Picks { direction, section, phrase }
    }

    /// Does what `key` does, with `shift` held or not, and says whether the
    /// key ends the session. Where the key asks a new question, its
    /// direction, section and phrase are drawn at random.
    pub fn handle_key(&mut self, key: Key, shift: bool) -> (quit: bool)
        requires
            old(self).wf(),
        ensures
            final(self).wf(),
            quit == quits(old(self)@, key),
            exists|picks: Picks|
                fair(old(self)@, picks) && final(self)@ == step(old(self)@, key, shift, picks),
            selection_inside(old(self)@) ==> selection_inside(final(self)@),
    {
        let picks = match key {
            Key::Enter => self.draw(),
            _ => Picks { direction: 0, section: 0, phrase: 0 },
        };
        let ghost drawn = picks;
        assert(fair(self@, drawn));
        let quit = self.apply_key(key, shift, picks);
        assert(fair(old(self)@, drawn) && self@ == step(old(self)@, key, shift, drawn));
        quit
    }

    /// The candidate glyphs for `hiragana`, by the session's kanji grammar.
    pub fn convert_to_kanji(&self, hiragana: &String) -> (kanji: Vec<char>)
        ensures
            kanji@ == kanji_of(self@.kanji_rules, hiragana@),
    {
        self.kanji_converter.convert(hiragana)
    }

    /// The romaji typed so far.
    pub fn get_romanji(&self) -> (romanji: String)
        ensures
            romanji@ == self@.romanji,
    {
        self.romanji.clone()
    }

    /// The kana of the romaji.
    pub fn get_kana(&self) -> (kana: String)
        ensures
            kana@ == self@.kana,
    {
        self.kana.clone()
    }

    /// The composite text: the kana with the spans' glyphs laid over it, as
    /// the last `update_kanji` left it.
    pub fn get_kanji(&self) -> (kanji: String)
        ensures
            kanji@ == self@.kanji,
    {
        self.kanji.clone()
    }
}

/// The kana before the selection, in it and behind it: the parts that a
/// selection of `len` characters at `offset` cuts `kana` into.
pub fn selection_parts(kana: &String, offset: usize, len: usize) -> (parts: (String, String, String))
    requires
        len >= 1,
        offset + len <= kana@.len(),
    ensures
        parts.0@ == kana@.subrange(0, offset as int),
        parts.1@ == kana@.subrange(offset as int, offset + len),
        parts.2@ == kana@.subrange(offset + len, kana@.len() as int),
{
    let count = char_count(kana);
    let left = substring(kana, 0, offset);
    let middle = substring(kana, offset, offset + len);
    let right = substring(kana, offset + len, count);
    (left, middle, right)
}

/// The index after `index` in a list of `count` entries, the first after the
/// last.
fn next_index(index: usize, count: usize) -> (next: usize)
    ensures
        next == wrap_next(index, count as int),
{
    if count == 0 || index >= count - 1 {
        0
    } else {
        index + 1
    }
}

/// The index before `index` in a list of `count` entries, the last before the
/// first.
fn prev_index(index: usize, count: usize) -> (prev: usize)
    ensures
        prev == wrap_prev(index, count as int),
{
    if index > 0 {
        index - 1
    } else if count > 0 {
        count - 1
    } else {
        0
    }
}

/// The spans of `spans` that `new` does not evict, in their order.
fn without_collisions(spans: &Vec<KanjiSpan>, new: KanjiSpan) -> (kept: Vec<KanjiSpan>)
    requires
        span_valid(new),
        forall|i: int| 0 <= i < spans@.len() ==> span_valid(#[trigger] spans@[i]),
    ensures
        kept@ == spans@.filter(survives(new)),
        forall|i: int| 0 <= i < kept@.len() ==> span_valid(#[trigger] kept@[i]),
{
    let mut kept: Vec<KanjiSpan> = Vec::new();
    let start = new.0;
    let end = new.0 + new.1;
    let mut i: usize = 0;
    assert(spans@.subrange(0, 0) =~= Seq::empty());
    assert(Seq::<KanjiSpan>::empty().filter(survives(new)) =~= Seq::empty()) by {
        reveal(Seq::filter);
    }
    while i < spans.len()
        invariant
            i <= spans.len(),
            start == new.0,
            end == span_end(new),
            forall|j: int| 0 <= j < spans@.len() ==> span_valid(#[trigger] spans@[j]),
            kept@ == spans@.subrange(0, i as int).filter(survives(new)),
            forall|j: int| 0 <= j < kept@.len() ==> span_valid(#[trigger] kept@[j]),
        decreases spans.len() - i,
    {
        let old = spans[i];
        let old_end = old.0 + old.1;
        proof {
            lemma_filter_push(spans@.subrange(0, i as int), old, survives(new));
            assert(spans@.subrange(0, i as int).push(old) =~= spans@.subrange(0, i + 1));
        }
        if !(old.0 < end && start < old_end) {
            kept.push(old);
        }
        i += 1;
    }
    assert(spans@.subrange(0, spans@.len() as int) =~= spans@);
    kept
}

/// The spans of `spans` that end within `count` characters, in their order.
fn within(spans: &Vec<KanjiSpan>, count: usize) -> (kept: Vec<KanjiSpan>)
    requires
        forall|i: int| 0 <= i < spans@.len() ==> span_valid(#[trigger] spans@[i]),
    ensures
        kept@ == pruned(spans@, count as int),
        forall|i: int| 0 <= i < kept@.len() ==> span_valid(#[trigger] kept@[i]),
{
    let mut kept: Vec<KanjiSpan> = Vec::new();
    let mut i: usize = 0;
    assert(spans@.subrange(0, 0) =~= Seq::empty());
    assert(Seq::<KanjiSpan>::empty().filter(fits(count as int)) =~= Seq::empty()) by {
        reveal(Seq::filter);
    }
    while i < spans.len()
        invariant
            i <= spans.len(),
            forall|j: int| 0 <= j < spans@.len() ==> span_valid(#[trigger] spans@[j]),
            kept@ == spans@.subrange(0, i as int).filter(fits(count as int)),
            forall|j: int| 0 <= j < kept@.len() ==> span_valid(#[trigger] kept@[j]),
        decreases spans.len() - i,
    {
        let span = spans[i];
        proof {
            lemma_filter_push(spans@.subrange(0, i as int), span, fits(count as int));
            assert(spans@.subrange(0, i as int).push(span) =~= spans@.subrange(0, i + 1));
        }
        if span.0 + span.1 <= count {
            kept.push(span);
        }
        i += 1;
    }
    assert(spans@.subrange(0, spans@.len() as int) =~= spans@);
    kept
}

/// Whether `a` comes before `b`, or is `b`, in the order of spans.
fn span_le(a: KanjiSpan, b: KanjiSpan) -> (le: bool)
    ensures
        le == span_leq(a, b),
{
    a.0 < b.0 || (a.0 == b.0 && (a.1 < b.1 || (a.1 == b.1 && a.2 <= b.2)))
}

/// `spans` in ascending order.
fn sort_spans(spans: &Vec<KanjiSpan>) -> (sorted: Vec<KanjiSpan>)
    requires
        forall|i: int| 0 <= i < spans@.len() ==> span_valid(#[trigger] spans@[i]),
    ensures
        sorted@ == ordered(spans@),
        forall|i: int| 0 <= i < sorted@.len() ==> span_valid(#[trigger] sorted@[i]),
{
    let mut sorted: Vec<KanjiSpan> = Vec::new();
    let mut i: usize = 0;
    assert(spans@.subrange(0, 0) =~= Seq::empty());
    while i < spans.len()
        invariant
            i <= spans.len(),
            ascending(sorted@),
            sorted@.to_multiset() == spans@.subrange(0, i as int).to_multiset(),
            forall|k: int| 0 <= k < spans@.len() ==> span_valid(#[trigger] spans@[k]),
            forall|k: int| 0 <= k < sorted@.len() ==> span_valid(#[trigger] sorted@[k]),
        decreases spans.len() - i,
    {
        let span = spans[i];
        let mut j: usize = 0;
        while j < sorted.len() && span_le(sorted[j], span)
            invariant
                j <= sorted.len(),
                ascending(sorted@),
                forall|k: int| 0 <= k < j ==> span_leq(#[trigger] sorted@[k], span),
            decreases sorted.len() - j,
        {
            j += 1;
        }
        proof {
            let before = sorted@;
            let after = before.insert(j as int, span);
            assert forall|a: int, b: int| 0 <= a < b < after.len() implies (#[trigger] span_order()(
                after[a],
                after[b],
            )) by {
                if b < j {
                    assert(span_order()(before[a], before[b]));
                } else if b == j {
                    assert(span_leq(before[a], span));
                } else if a < j {
                    assert(span_order()(before[a], before[b - 1]));
                } else if a == j {
                    assert(!span_leq(before[j as int], span));
                    assert(j as int == b - 1 || span_order()(before[j as int], before[b - 1]));
                } else {
                    assert(span_order()(before[a - 1], before[b - 1]));
                }
            }
            vstd::seq_lib::to_multiset_insert(before, j as int, span);
            vstd::seq_lib::to_multiset_build(spans@.subrange(0, i as int), span);
            assert(spans@.subrange(0, i as int).push(span) =~= spans@.subrange(0, i + 1));
        }
        sorted.insert(j, span);
        i += 1;
    }
    proof {
        assert(spans@.subrange(0, spans@.len() as int) =~= spans@);
        lemma_ordered_unique(spans@, sorted@);
    }
    sorted
}

} // verus!
