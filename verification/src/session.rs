//! The model of a session: what it holds, how the selection moves over the
//! kana and is kept inside it, and what each key does to it.
//!
//! The selection is a run of kana characters, given by the offset of its
//! first character and by its length. All positions count characters.

use vstd::prelude::*;
use crate::app::CurrentScreen;
use crate::app::CurrentSelection;
use crate::app::TranslationDirection;
use crate::converter::kana_of;
use crate::kanji_converter::kanji_of;
use crate::lessons::Lesson;
use crate::lessons::Phrase;
use crate::lessons::Section;
use crate::overlay::after_add;
use crate::overlay::all_valid;
use crate::overlay::apart;
use crate::overlay::applied;
use crate::overlay::ascending;
use crate::overlay::fits;
use crate::overlay::glyph_for;
use crate::overlay::KanjiSpan;
use crate::overlay::lemma_after_add_apart;
use crate::overlay::lemma_filter_apart;
use crate::overlay::lemma_filter_keeps_all;
use crate::overlay::lemma_filter_keeps_stored;
use crate::overlay::lemma_none_passed_over;
use crate::overlay::lemma_ordered;
use crate::overlay::lemma_ordered_apart;
use crate::overlay::lemma_ordered_unique;
use crate::overlay::lemma_overlay_no_spans;
use crate::overlay::lemma_prune_drops;
use crate::overlay::ordered;
use crate::overlay::overlay;
use crate::overlay::pruned;
use crate::overlay::span_end;
use crate::overlay::span_valid;
use crate::overlay::survives;
use crate::rules::RuleNode;

verus! {

/// Where the review stands, as plain values.
pub struct ContextView {
    pub current_screen: CurrentScreen,
    pub current_selection: CurrentSelection,
    pub lesson: usize,
    pub section: usize,
    pub phrase: usize,
    pub prev_section: Option<usize>,
    pub prev_phrase: Option<usize>,
    pub translation_direction: TranslationDirection,
    pub prev_translation_direction: Option<TranslationDirection>,
    pub prev_answer: Option<Seq<char>>,
}

/// What a session holds, as plain values.
pub struct AppView {
    pub book: Seq<Lesson>,
    pub kana_rules: Seq<RuleNode>,
    pub kanji_rules: Seq<RuleNode>,
    pub context: ContextView,
    pub romanji: Seq<char>,
    pub kana: Seq<char>,
    pub kanji: Seq<char>,
    pub kana_offset: usize,
    pub kana_len: usize,
    pub default_candidate: usize,
    pub spans: Seq<KanjiSpan>,
}

/// A key, as far as the session tells keys apart.
pub enum Key {
    Esc,
    Enter,
    Tab,
    Up,
    Down,
    Left,
    Right,
    Backspace,
    Char(char),
    Other,
}

/// The numbers drawn for a new question: for the direction of translation,
/// for the section and for the phrase.
pub struct Picks {
    pub direction: usize,
    pub section: usize,
    pub phrase: usize,
}

/// Whether the selection holds at least one character and, where there is
/// kana at all, lies within its `count` characters.
pub open spec fn selection_ok(offset: usize, len: usize, count: int) -> bool {
    len >= 1 && (count > 0 ==> offset + len <= count)
}

/// The selection after a step to the right: one character, one place
/// further right if the selection did not yet reach the end of the kana.
pub open spec fn moved_right(offset: usize, len: usize, count: int) -> (usize, usize) {
    if offset + len < count {
        ((offset + 1) as usize, 1)
    } else {
        (offset, 1)
    }
}

/// The selection after it is extended: one character longer if it did not
/// yet reach the end of the kana.
pub open spec fn extended(offset: usize, len: usize, count: int) -> (usize, usize) {
    if offset + len < count {
        (offset, (len + 1) as usize)
    } else {
        (offset, len)
    }
}

/// The selection after a step to the left: one character, one place further
/// left if there is one.
pub open spec fn moved_left(offset: usize, len: usize) -> (usize, usize) {
    if offset > 0 {
        ((offset - 1) as usize, 1)
    } else {
        (offset, 1)
    }
}

/// The selection after it is shrunk: one character shorter, but never empty.
pub open spec fn shrunk(offset: usize, len: usize) -> (usize, usize) {
    if len > 1 {
        (offset, (len - 1) as usize)
    } else {
        (offset, len)
    }
}

/// The selection brought back inside a kana of `count` characters.
///
/// A selection that ends within the kana stays, and so does any selection
/// while there is no kana. One that ends beyond the kana is moved left by the
/// excess; where it is longer than the kana it becomes the whole kana.
pub open spec fn fitted(offset: usize, len: usize, count: int) -> (usize, usize) {
    if count <= 0 || offset + len <= count {
        (offset, len)
    } else if len <= count {
        ((count - len) as usize, len)
    } else {
        (0, count as usize)
    }
}

/// The selection brought back inside the kana after a character was deleted:
/// a selection of several characters that ends beyond the kana first loses
/// one, and is then fitted.
pub open spec fn fitted_after_delete(offset: usize, len: usize, count: int) -> (usize, usize) {
    if count > 0 && len > 1 && offset + len > count {
        fitted(offset, (len - 1) as usize, count)
    } else {
        fitted(offset, len, count)
    }
}

/// Moving, extending and shrinking keep a selection inside the kana.
pub proof fn lemma_moves_keep_selection(offset: usize, len: usize, count: int)
    requires
        selection_ok(offset, len, count),
        count <= usize::MAX,
    ensures
        selection_ok(moved_right(offset, len, count).0, moved_right(offset, len, count).1, count),
        selection_ok(extended(offset, len, count).0, extended(offset, len, count).1, count),
        selection_ok(moved_left(offset, len).0, moved_left(offset, len).1, count),
        selection_ok(shrunk(offset, len).0, shrunk(offset, len).1, count),
{
}

/// Fitting brings any selection of at least one character inside the kana,
/// and leaves alone one that is inside already.
pub proof fn lemma_fitted_is_inside(offset: usize, len: usize, count: int)
    requires
        len >= 1,
        count <= usize::MAX,
    ensures
        selection_ok(fitted(offset, len, count).0, fitted(offset, len, count).1, count),
        selection_ok(
            fitted_after_delete(offset, len, count).0,
            fitted_after_delete(offset, len, count).1,
            count,
        ),
        selection_ok(offset, len, count) ==> fitted(offset, len, count) == (offset, len)
            && fitted_after_delete(offset, len, count) == (offset, len),
{
}

/// The session after `value` is typed, the selection left where it was.
pub open spec fn typed(v: AppView, value: char) -> AppView {
    AppView {
        romanji: v.romanji.push(value),
        kana: kana_of(v.kana_rules, v.romanji.push(value)),
        ..v
    }
}

/// The session after the last character of the romaji is deleted, the
/// selection left where it was. With nothing typed, only the kana is
/// converted anew.
pub open spec fn deleted(v: AppView) -> AppView {
    if v.romanji.len() > 0 {
        AppView {
            romanji: v.romanji.drop_last(),
            kana: kana_of(v.kana_rules, v.romanji.drop_last()),
            ..v
        }
    } else {
        AppView { kana: kana_of(v.kana_rules, v.romanji), ..v }
    }
}

/// The session with its selection set to `selection`.
pub open spec fn selecting(v: AppView, selection: (usize, usize)) -> AppView {
    AppView { kana_offset: selection.0, kana_len: selection.1, ..v }
}

/// The session after the span `span` is laid over the kana: it is stored,
/// after the spans it evicts are removed, if it has a glyph; else nothing
/// changes.
pub open spec fn spanned(v: AppView, span: KanjiSpan) -> AppView {
    if glyph_for(v.kanji_rules, v.kana, span) is Some {
        AppView { spans: after_add(v.spans, span), ..v }
    } else {
        v
    }
}

/// The session after the selection is committed with the candidate `candidate`:
/// the selection becomes a span if it lies within the kana.
pub open spec fn committed(v: AppView, candidate: usize) -> AppView {
    if v.kana_len >= 1 && v.kana_offset + v.kana_len <= v.kana.len() {
        spanned(v, (v.kana_offset, v.kana_len, candidate))
    } else {
        v
    }
}

/// The candidate glyphs for the selected kana; none where the selection does
/// not lie within the kana.
pub open spec fn selected_candidates(v: AppView) -> Seq<char> {
    if v.kana_offset + v.kana_len <= v.kana.len() {
        kanji_of(v.kanji_rules, v.kana.subrange(v.kana_offset as int, v.kana_offset + v.kana_len))
    } else {
        Seq::empty()
    }
}

/// The session brought up to date with its kana: the spans that no longer
/// end within the kana are dropped, the others are put in ascending order,
/// and the composite text is the kana with those spans applied in that order.
pub open spec fn refreshed(v: AppView) -> AppView {
    AppView {
        spans: ordered(pruned(v.spans, v.kana.len() as int)),
        kanji: overlay(v.kanji_rules, v.kana, ordered(pruned(v.spans, v.kana.len() as int))),
        ..v
    }
}

/// The session with nothing typed and the selection on the first character.
/// The spans stay until the session is next brought up to date.
pub open spec fn cleared(v: AppView) -> AppView {
    AppView {
        romanji: Seq::empty(),
        kana: Seq::empty(),
        kanji: Seq::empty(),
        kana_offset: 0,
        kana_len: 1,
        ..v
    }
}

/// The index after `index` in a list of `count` entries, the first after the
/// last.
pub open spec fn wrap_next(index: usize, count: int) -> usize {
    if index + 1 >= count {
        0
    } else {
        (index + 1) as usize
    }
}

/// The index before `index` in a list of `count` entries, the last before
/// the first.
pub open spec fn wrap_prev(index: usize, count: int) -> usize {
    if index > 0 {
        (index - 1) as usize
    } else if count > 0 {
        (count - 1) as usize
    } else {
        0
    }
}

/// The direction that the number `pick` stands for.
pub open spec fn direction_of(pick: usize) -> TranslationDirection {
    if pick == 0 {
        TranslationDirection::ToJP
    } else {
        TranslationDirection::ToEN
    }
}

/// The sections of the lesson under review; none where the book has no such
/// lesson.
pub open spec fn sections_of(v: AppView) -> Seq<Section> {
    if v.context.lesson < v.book.len() {
        v.book[v.context.lesson as int].sections@
    } else {
        Seq::empty()
    }
}

/// The phrases of the section `section` of the lesson under review; none
/// where the lesson has no such section.
pub open spec fn phrases_in(v: AppView, section: usize) -> Seq<Phrase> {
    if section < sections_of(v).len() {
        sections_of(v)[section as int].phrases@
    } else {
        Seq::empty()
    }
}

/// Whether the section of each question is drawn: it is when the review was
/// started from the list of lessons, and not when a section was chosen.
pub open spec fn draws_section(v: AppView) -> bool {
    v.context.current_selection is Lesson
}

/// The section of the next question.
pub open spec fn next_section(v: AppView, picks: Picks) -> usize {
    if draws_section(v) {
        picks.section
    } else {
        v.context.section
    }
}

/// Whether the numbers drawn name a phrase of the lesson under review.
pub open spec fn can_ask(v: AppView, picks: Picks) -> bool {
    picks.phrase < phrases_in(v, next_section(v, picks)).len()
}

/// Whether the numbers are drawn as they should be: each below the number of
/// choices there are, where there is any choice.
pub open spec fn fair(v: AppView, picks: Picks) -> bool {
    &&& picks.direction < 2
    &&& sections_of(v).len() > 0 ==> picks.section < sections_of(v).len()
    &&& phrases_in(v, next_section(v, picks)).len() > 0 ==> picks.phrase < phrases_in(
        v,
        next_section(v, picks),
    ).len()
}

/// The context when the review of the drawn phrase starts.
pub open spec fn asking(c: ContextView, section: usize, picks: Picks) -> ContextView {
    ContextView {
        current_screen: CurrentScreen::Review,
        translation_direction: direction_of(picks.direction),
        section: section,
        phrase: picks.phrase,
        ..c
    }
}

/// The answer that is recorded for the question under review: the romaji
/// when translating to English, the composite text when translating to
/// Japanese.
pub open spec fn answer(v: AppView) -> Seq<char> {
    match v.context.translation_direction {
        TranslationDirection::ToEN => v.romanji,
        TranslationDirection::ToJP => v.kanji,
    }
}

/// The context with the question under review recorded as the previous one.
pub open spec fn recorded(v: AppView) -> ContextView {
    ContextView {
        prev_section: Some(v.context.section),
        prev_phrase: Some(v.context.phrase),
        prev_translation_direction: Some(v.context.translation_direction),
        prev_answer: Some(answer(v)),
        ..v.context
    }
}

/// The context after the review is left: back on the list of lessons, at the
/// first lesson, with no previous question.
pub open spec fn left_review(c: ContextView) -> ContextView {
    ContextView {
        current_screen: CurrentScreen::LessonSelect,
        current_selection: CurrentSelection::Lesson,
        lesson: 0,
        section: 0,
        prev_section: None,
        prev_phrase: None,
        prev_translation_direction: None,
        prev_answer: None,
        ..c
    }
}

/// Whether `key` ends the session: Esc does, on the welcome screen and on
/// the lesson selection screen.
pub open spec fn quits(v: AppView, key: Key) -> bool {
    key is Esc && !(v.context.current_screen is Review)
}

/// What `key` does on the welcome screen: any key leads on to the lesson
/// selection.
pub open spec fn welcome_step(v: AppView, key: Key) -> AppView {
    AppView {
        context: ContextView { current_screen: CurrentScreen::LessonSelect, ..v.context },
        ..v
    }
}

/// What `key` does on the lesson selection screen.
///
/// In the list of lessons, Up and Down move through the lessons, Right goes
/// over to the sections of the lesson, and Enter starts a review with a
/// drawn section. In the list of sections, Up and Down move through the
/// sections, Left goes back to the lessons, and Enter starts a review of the
/// section. A review starts only if the numbers drawn name a phrase.
pub open spec fn select_step(v: AppView, key: Key, picks: Picks) -> AppView {
    let c = v.context;
    let context = match (c.current_selection, key) {
        (_, Key::Enter) => if can_ask(v, picks) {
            asking(c, next_section(v, picks), picks)
        } else {
            c
        },
        (CurrentSelection::Lesson, Key::Down) => ContextView {
            lesson: wrap_next(c.lesson, v.book.len() as int),
            ..c
        },
        (CurrentSelection::Lesson, Key::Up) => ContextView {
            lesson: wrap_prev(c.lesson, v.book.len() as int),
            ..c
        },
        (CurrentSelection::Lesson, Key::Right) => ContextView {
            current_selection: CurrentSelection::Section,
            section: 0,
            ..c
        },
        (CurrentSelection::Section, Key::Down) => ContextView {
            section: wrap_next(c.section, sections_of(v).len() as int),
            ..c
        },
        (CurrentSelection::Section, Key::Up) => ContextView {
            section: wrap_prev(c.section, sections_of(v).len() as int),
            ..c
        },
        (CurrentSelection::Section, Key::Left) => ContextView {
            current_selection: CurrentSelection::Lesson,
            section: 0,
            ..c
        },
        _ => c,
    };
    AppView { context: context, ..v }
}

/// What `key` does on the review screen.
///
/// Esc leaves the review and clears what was typed. Enter records the answer
/// and asks the next question, if the numbers drawn name a phrase. Tab lays
/// the selection over the kana as a span with the default candidate, if
/// there is kana. Right and Left move the selection, or extend and shrink it
/// with `shift`. A character is typed and Backspace deletes one; the
/// selection is then brought back inside the kana.
pub open spec fn review_step(v: AppView, key: Key, shift: bool, picks: Picks) -> AppView {
    let count = v.kana.len() as int;
    match key {
        Key::Esc => cleared(AppView { context: left_review(v.context), ..v }),
        Key::Enter => if can_ask(v, picks) {
            cleared(
                AppView { context: asking(recorded(v), next_section(v, picks), picks), ..v },
            )
        } else {
            v
        },
        Key::Tab => if count > 0 {
            committed(v, v.default_candidate)
        } else {
            v
        },
        Key::Right => if shift {
            selecting(v, extended(v.kana_offset, v.kana_len, count))
        } else {
            selecting(v, moved_right(v.kana_offset, v.kana_len, count))
        },
        Key::Left => if shift {
            selecting(v, shrunk(v.kana_offset, v.kana_len))
        } else {
            selecting(v, moved_left(v.kana_offset, v.kana_len))
        },
        Key::Char(value) => selecting(
            typed(v, value),
            fitted(v.kana_offset, v.kana_len, typed(v, value).kana.len() as int),
        ),
        Key::Backspace => selecting(
            deleted(v),
            fitted_after_delete(v.kana_offset, v.kana_len, deleted(v).kana.len() as int),
        ),
        _ => v,
    }
}

/// The session after `key`: what the key does on the screen that is shown,
/// and then, unless the key ends the session, the session brought up to date
/// with its kana.
pub open spec fn step(v: AppView, key: Key, shift: bool, picks: Picks) -> AppView {
    if quits(v, key) {
        v
    } else {
        refreshed(
            match v.context.current_screen {
                CurrentScreen::Welcome => welcome_step(v, key),
                CurrentScreen::LessonSelect => select_step(v, key, picks),
                CurrentScreen::Review => review_step(v, key, shift, picks),
            },
        )
    }
}

/// Whether the selection of the session lies inside its kana.
pub open spec fn selection_inside(v: AppView) -> bool {
    selection_ok(v.kana_offset, v.kana_len, v.kana.len() as int)
}

/// Whether the session is in order: the kana is the conversion of the
/// romaji, every stored span covers at least one character and ends at a
/// position that a `usize` can hold, no kana position lies in more than one
/// stored span, and the selection has at least one character and ends at a
/// position that a `usize` can hold.
pub open spec fn well_formed(v: AppView) -> bool {
    &&& v.kana == kana_of(v.kana_rules, v.romanji)
    &&& all_valid(v.spans)
    &&& apart(v.spans)
    &&& v.kana_len >= 1
    &&& v.kana_offset + v.kana_len <= usize::MAX
}

/// A key leaves the selection inside the kana if it was inside before and
/// the kana has no more characters than a `usize` can count.
pub proof fn lemma_step_keeps_selection(v: AppView, key: Key, shift: bool, picks: Picks)
    requires
        selection_inside(v),
        v.kana.len() <= usize::MAX,
        step(v, key, shift, picks).kana.len() <= usize::MAX,
    ensures
        selection_inside(step(v, key, shift, picks)),
{
    let count = v.kana.len() as int;
    lemma_moves_keep_selection(v.kana_offset, v.kana_len, count);
    if v.context.current_screen is Review {
        match key {
            Key::Char(value) => {
                lemma_fitted_is_inside(v.kana_offset, v.kana_len, typed(v, value).kana.len() as int);
            },
            Key::Backspace => {
                lemma_fitted_is_inside(v.kana_offset, v.kana_len, deleted(v).kana.len() as int);
            },
            _ => {},
        }
    }
}

/// Typing, deleting and clearing keep a session in order.
pub proof fn lemma_edits_well_formed(v: AppView, value: char)
    requires
        well_formed(v),
    ensures
        well_formed(typed(v, value)),
        well_formed(deleted(v)),
        well_formed(cleared(v)),
{
}

/// Laying a span over the kana keeps a session in order.
pub proof fn lemma_spanned_well_formed(v: AppView, span: KanjiSpan)
    requires
        well_formed(v),
        span_valid(span),
    ensures
        well_formed(spanned(v, span)),
{
    let kept = v.spans.filter(survives(span));
    assert forall|i: int| 0 <= i < kept.len() implies span_valid(#[trigger] kept[i]) by {
        lemma_filter_keeps_stored(v.spans, survives(span), i);
    }
    lemma_after_add_apart(v.spans, span);
}

/// A key keeps a session in order, if the kana has no more characters than
/// a `usize` can count, before the key and after it.
pub proof fn lemma_step_well_formed(v: AppView, key: Key, shift: bool, picks: Picks)
    requires
        well_formed(v),
        v.kana.len() <= usize::MAX,
        step(v, key, shift, picks).kana.len() <= usize::MAX,
    ensures
        well_formed(step(v, key, shift, picks)),
{
    if !quits(v, key) {
        let before = match v.context.current_screen {
            CurrentScreen::Welcome => welcome_step(v, key),
            CurrentScreen::LessonSelect => select_step(v, key, picks),
            CurrentScreen::Review => review_step(v, key, shift, picks),
        };
        assert(well_formed(before)) by {
            if v.context.current_screen is Review {
                match key {
                    Key::Tab => {
                        lemma_spanned_well_formed(
                            v,
                            (v.kana_offset, v.kana_len, v.default_candidate),
                        );
                    },
                    _ => {},
                }
            }
        }
        lemma_refreshed_well_formed(before);
    }
}

/// After a session is brought up to date, its spans are in ascending order
/// and end within the kana, and the composite text is the kana with those
/// spans applied.
pub proof fn lemma_refreshed_settled(v: AppView)
    ensures
        ascending(refreshed(v).spans),
        forall|i: int|
            0 <= i < refreshed(v).spans.len() ==> span_end(#[trigger] refreshed(v).spans[i])
                <= v.kana.len(),
        refreshed(v).kanji == overlay(v.kanji_rules, v.kana, refreshed(v).spans),
{
    let count = v.kana.len() as int;
    lemma_ordered(pruned(v.spans, count));
    assert forall|i: int| 0 <= i < refreshed(v).spans.len() implies span_end(
        #[trigger] refreshed(v).spans[i],
    ) <= v.kana.len() by {
        lemma_prune_drops(v.spans, count, refreshed(v).spans[i]);
        assert(refreshed(v).spans.contains(refreshed(v).spans[i]));
    }
}

/// The newest span wins: once a span with a glyph is laid over the kana of
/// a session in order, it is among the spans that are applied when the
/// session is brought up to date.
pub proof fn lemma_new_span_is_applied(v: AppView, span: KanjiSpan)
    requires
        well_formed(v),
        span_valid(span),
        span_end(span) <= v.kana.len(),
        glyph_for(v.kanji_rules, v.kana, span) is Some,
    ensures
        refreshed(spanned(v, span)).spans.contains(span),
        applied(v.kanji_rules, v.kana, refreshed(spanned(v, span)).spans, 0, 0).contains(span),
{
    let added = spanned(v, span);
    let stored = refreshed(added).spans;
    lemma_spanned_well_formed(v, span);
    lemma_refreshed_well_formed(added);
    lemma_ordered(pruned(added.spans, v.kana.len() as int));
    assert(added.spans.last() == span);
    assert(added.spans.contains(span));
    lemma_prune_drops(added.spans, v.kana.len() as int, span);
    let k = choose|k: int| 0 <= k < stored.len() && stored[k] == span;
    assert(span_valid(stored[0]));
    lemma_none_passed_over(v.kanji_rules, v.kana, stored, 0, 0, k);
}

/// Bringing a session up to date keeps it in order.
pub proof fn lemma_refreshed_well_formed(v: AppView)
    requires
        well_formed(v),
    ensures
        well_formed(refreshed(v)),
{
    let kept = pruned(v.spans, v.kana.len() as int);
    assert forall|k: int| 0 <= k < kept.len() implies span_valid(#[trigger] kept[k]) by {
        lemma_filter_keeps_stored(v.spans, fits(v.kana.len() as int), k);
    }
    lemma_filter_apart(v.spans, fits(v.kana.len() as int));
    lemma_ordered_apart(kept);
}

/// A session without spans is brought up to date by taking the kana for the
/// composite text.
pub proof fn lemma_refreshed_no_spans(v: AppView)
    requires
        v.spans.len() == 0,
    ensures
        refreshed(v) == (AppView { kanji: v.kana, ..v }),
{
    let none = Seq::<KanjiSpan>::empty();
    assert(v.spans =~= none);
    lemma_filter_keeps_all(none, fits(v.kana.len() as int));
    lemma_ordered_unique(none, none);
    lemma_overlay_no_spans(v.kanji_rules, v.kana);
}

/// Bringing a session up to date twice is the same as doing it once.
pub proof fn lemma_refreshed_twice(v: AppView)
    ensures
        refreshed(refreshed(v)) == refreshed(v),
{
    let count = v.kana.len() as int;
    let once = ordered(pruned(v.spans, count));
    lemma_ordered(pruned(v.spans, count));
    assert forall|i: int| 0 <= i < once.len() implies fits(count)(#[trigger] once[i]) by {
        lemma_prune_drops(v.spans, count, once[i]);
        assert(once.contains(once[i]));
    }
    lemma_filter_keeps_all(once, fits(count));
    lemma_ordered_unique(once, once);
}

} // verus!
