//! The model of the kanji overlay: spans over the kana, the collision and
//! pruning rules, and the composite text that the spans produce.
//!
//! A span is a triple `(start, length, candidate)`: it covers the kana
//! characters `start .. start + length` and chooses the candidate glyph of
//! that index. All positions count characters.

use vstd::prelude::*;
use vstd::relations::sorted_by;
use vstd::relations::total_ordering;
use vstd::seq_lib::lemma_sorted_unique;
use crate::kanji_converter::kanji_of;
use crate::rules::RuleNode;

verus! {

/// A span: the offset of its first kana character, the number of characters
/// it covers, and the index of the candidate it chooses.
pub type KanjiSpan = (usize, usize, usize);

/// The position just past the last character of `span`.
pub open spec fn span_end(span: KanjiSpan) -> int {
    span.0 + span.1
}

/// A span that can be stored: it covers at least one character and its end
/// is a position that a `usize` can hold.
pub open spec fn span_valid(span: KanjiSpan) -> bool {
    span.1 >= 1 && span_end(span) <= usize::MAX
}

/// Whether adding `new` evicts `old`: the two ranges overlap, so that some
/// kana position lies in both. Spans that only touch, one ending where the
/// other starts, do not collide.
pub open spec fn collides(new: KanjiSpan, old: KanjiSpan) -> bool {
    old.0 < span_end(new) && new.0 < span_end(old)
}

/// Whether no two of `spans` collide: no kana position lies in more than one
/// of them.
pub open spec fn apart(spans: Seq<KanjiSpan>) -> bool {
    forall|i: int, j: int|
        0 <= i < j < spans.len() ==> !collides(#[trigger] spans[i], #[trigger] spans[j])
}

/// Whether every span of `spans` can be stored.
pub open spec fn all_valid(spans: Seq<KanjiSpan>) -> bool {
    forall|i: int| 0 <= i < spans.len() ==> span_valid(#[trigger] spans[i])
}

/// The test that a stored span passes when `new` is added: `new` does not
/// evict it.
pub open spec fn survives(new: KanjiSpan) -> spec_fn(KanjiSpan) -> bool {
    |old: KanjiSpan| !collides(new, old)
}

/// The spans after `new` is added: those it does not evict, in their order,
/// then `new`.
pub open spec fn after_add(spans: Seq<KanjiSpan>, new: KanjiSpan) -> Seq<KanjiSpan> {
    spans.filter(survives(new)).push(new)
}

/// The test that a stored span passes when the kana has `count` characters:
/// it ends within them.
pub open spec fn fits(count: int) -> spec_fn(KanjiSpan) -> bool {
    |span: KanjiSpan| span_end(span) <= count
}

/// The spans that are kept when the kana has `count` characters.
pub open spec fn pruned(spans: Seq<KanjiSpan>, count: int) -> Seq<KanjiSpan> {
    spans.filter(fits(count))
}

/// Filtering a sequence that ends in `last` filters what comes before it and
/// then keeps or drops `last`.
pub proof fn lemma_filter_push(
    spans: Seq<KanjiSpan>,
    last: KanjiSpan,
    keep: spec_fn(KanjiSpan) -> bool,
)
    ensures
        spans.push(last).filter(keep) == if keep(last) {
            spans.filter(keep).push(last)
        } else {
            spans.filter(keep)
        },
{
    reveal(Seq::filter);
    assert(spans.push(last).drop_last() =~= spans);
}

/// The order in which spans are applied: by start, then by length, then by
/// candidate.
pub open spec fn span_leq(a: KanjiSpan, b: KanjiSpan) -> bool {
    a.0 < b.0 || (a.0 == b.0 && (a.1 < b.1 || (a.1 == b.1 && a.2 <= b.2)))
}

/// The order of spans as a relation.
pub open spec fn span_order() -> spec_fn(KanjiSpan, KanjiSpan) -> bool {
    |a: KanjiSpan, b: KanjiSpan| span_leq(a, b)
}

/// Whether `spans` is in ascending order.
pub open spec fn ascending(spans: Seq<KanjiSpan>) -> bool {
    sorted_by(spans, span_order())
}

/// `spans` in the order in which they are applied.
pub open spec fn ordered(spans: Seq<KanjiSpan>) -> Seq<KanjiSpan> {
    spans.sort_by(span_order())
}

/// The order of spans is a total order.
pub proof fn lemma_span_order_total()
    ensures
        total_ordering(span_order()),
{
    let leq = span_order();
    assert forall|a: KanjiSpan, b: KanjiSpan|
        #[trigger] leq(a, b) && #[trigger] leq(b, a) implies a == b by {
        assert(a.0 == b.0 && a.1 == b.1 && a.2 == b.2);
    }
}

/// `ordered(spans)` holds the spans of `spans`, each as often, in ascending
/// order.
pub proof fn lemma_ordered(spans: Seq<KanjiSpan>)
    ensures
        ordered(spans).to_multiset() == spans.to_multiset(),
        ascending(ordered(spans)),
{
    lemma_span_order_total();
    spans.lemma_sort_by_ensures(span_order());
}

/// A sequence in ascending order that holds the spans of `spans`, each as
/// often, is `ordered(spans)`.
pub proof fn lemma_ordered_unique(spans: Seq<KanjiSpan>, other: Seq<KanjiSpan>)
    requires
        other.to_multiset() == spans.to_multiset(),
        ascending(other),
    ensures
        other == ordered(spans),
{
    lemma_ordered(spans);
    lemma_span_order_total();
    lemma_sorted_unique(other, ordered(spans), span_order());
}

/// The glyph that `span` puts in place of its kana: the candidate of its
/// index among the candidates for the kana it covers, looked up afresh, if
/// there are that many.
pub open spec fn glyph_for(rules: Seq<RuleNode>, kana: Seq<char>, span: KanjiSpan) -> Option<char> {
    let candidates = kanji_of(rules, kana.subrange(span.0 as int, span_end(span)));
    if span.2 < candidates.len() {
        Some(candidates[span.2 as int])
    } else {
        None
    }
}

/// Whether `span` is applied when the kana before `pos` is already written:
/// it lies within the kana at or after `pos` and has a glyph.
pub open spec fn applies(rules: Seq<RuleNode>, kana: Seq<char>, span: KanjiSpan, pos: int) -> bool {
    &&& span.1 >= 1
    &&& pos <= span.0
    &&& span_end(span) <= kana.len()
    &&& glyph_for(rules, kana, span) is Some
}

/// The composite text for `kana[pos..]` under `spans[from..]`, taken in their
/// order: each span that applies puts its glyph in place of the kana it
/// covers, and the kana between the spans stays. A span that does not apply,
/// because it has no glyph or starts before `pos`, is passed over. The spans
/// that a session stores are apart: among them only a span without a glyph
/// is passed over.
pub open spec fn overlay_from(
    rules: Seq<RuleNode>,
    kana: Seq<char>,
    spans: Seq<KanjiSpan>,
    from: int,
    pos: int,
) -> Seq<char>
    decreases spans.len() - from,
{
    if from < 0 || from >= spans.len() {
        kana.subrange(pos, kana.len() as int)
    } else if applies(rules, kana, spans[from], pos) {
        kana.subrange(pos, spans[from].0 as int).push(glyph_for(rules, kana, spans[from])->0)
            + overlay_from(rules, kana, spans, from + 1, span_end(spans[from]))
    } else {
        overlay_from(rules, kana, spans, from + 1, pos)
    }
}

/// The composite text for `kana` under `spans`, taken in their order.
pub open spec fn overlay(rules: Seq<RuleNode>, kana: Seq<char>, spans: Seq<KanjiSpan>) -> Seq<char> {
    overlay_from(rules, kana, spans, 0, 0)
}

/// Adding a span evicts exactly the stored spans that collide with it: the
/// new span comes last, every span before it was stored and does not
/// collide, and every stored span that does not collide is still there. The
/// new span is held once: no span before it is the same.
pub proof fn lemma_add_evicts(spans: Seq<KanjiSpan>, new: KanjiSpan)
    requires
        new.1 >= 1,
    ensures
        after_add(spans, new).len() >= 1,
        after_add(spans, new).last() == new,
        forall|i: int|
            0 <= i < after_add(spans, new).len() - 1 ==> !collides(
                new,
                #[trigger] after_add(spans, new)[i],
            ) && after_add(spans, new)[i] != new && spans.contains(after_add(spans, new)[i]),
        forall|j: int|
            0 <= j < spans.len() && !collides(new, #[trigger] spans[j]) ==> after_add(
                spans,
                new,
            ).drop_last().contains(spans[j]),
{
    let kept = spans.filter(survives(new));
    assert(after_add(spans, new).drop_last() =~= kept);
    assert(collides(new, new));
    assert forall|i: int| 0 <= i < kept.len() implies !collides(new, #[trigger] kept[i])
        && spans.contains(kept[i]) by {
        spans.lemma_filter_pred(survives(new), i);
        lemma_filter_keeps_stored(spans, survives(new), i);
    }
    assert forall|j: int|
        0 <= j < spans.len() && !collides(new, #[trigger] spans[j]) implies kept.contains(
        spans[j],
    ) by {
        assert(survives(new)(spans[j]));
        spans.lemma_filter_contains(survives(new), j);
    }
}

/// A filter keeps spans apart that were apart.
pub proof fn lemma_filter_apart(spans: Seq<KanjiSpan>, keep: spec_fn(KanjiSpan) -> bool)
    requires
        apart(spans),
    ensures
        apart(spans.filter(keep)),
    decreases spans.len(),
{
    reveal(Seq::filter);
    if spans.len() > 0 {
        let front = spans.drop_last();
        let kept = front.filter(keep);
        let out = spans.filter(keep);
        assert(apart(front)) by {
            assert forall|i: int, j: int| 0 <= i < j < front.len() implies !collides(
                #[trigger] front[i],
                #[trigger] front[j],
            ) by {
                assert(front[i] == spans[i] && front[j] == spans[j]);
            }
        }
        lemma_filter_apart(front, keep);
        assert forall|i: int, j: int| 0 <= i < j < out.len() implies !collides(
            #[trigger] out[i],
            #[trigger] out[j],
        ) by {
            if j < kept.len() {
                assert(out[i] == kept[i] && out[j] == kept[j]);
            } else {
                assert(out[j] == spans.last());
                assert(out[i] == kept[i]);
                lemma_filter_keeps_stored(front, keep, i);
                let k = choose|k: int| 0 <= k < front.len() && front[k] == kept[i];
                assert(!collides(spans[k], spans[spans.len() - 1]));
            }
        }
    }
}

/// Adding a span keeps the stored spans apart: what it would overlap is
/// evicted.
pub proof fn lemma_after_add_apart(spans: Seq<KanjiSpan>, new: KanjiSpan)
    requires
        apart(spans),
    ensures
        apart(after_add(spans, new)),
{
    let kept = spans.filter(survives(new));
    let out = after_add(spans, new);
    lemma_filter_apart(spans, survives(new));
    assert forall|i: int, j: int| 0 <= i < j < out.len() implies !collides(
        #[trigger] out[i],
        #[trigger] out[j],
    ) by {
        if j < kept.len() {
            assert(out[i] == kept[i] && out[j] == kept[j]);
        } else {
            assert(out[i] == kept[i]);
            spans.lemma_filter_pred(survives(new), i);
        }
    }
}

/// Spans that can be stored and are apart are all different.
pub proof fn lemma_apart_no_duplicates(spans: Seq<KanjiSpan>)
    requires
        apart(spans),
        all_valid(spans),
    ensures
        spans.no_duplicates(),
{
    assert forall|i: int, j: int|
        0 <= i < spans.len() && 0 <= j < spans.len() && i != j implies spans[i] != spans[j] by {
        if i < j {
            assert(!collides(spans[i], spans[j]));
        } else {
            assert(!collides(spans[j], spans[i]));
        }
        assert(span_valid(spans[i]));
    }
}

/// Putting spans in order keeps them apart.
pub proof fn lemma_ordered_apart(spans: Seq<KanjiSpan>)
    requires
        apart(spans),
        all_valid(spans),
    ensures
        apart(ordered(spans)),
        all_valid(ordered(spans)),
{
    broadcast use vstd::multiset::group_multiset_axioms;

    let sorted = ordered(spans);
    lemma_ordered(spans);
    lemma_apart_no_duplicates(spans);
    spans.lemma_multiset_has_no_duplicates();
    sorted.lemma_multiset_has_no_duplicates_conv();
    assert forall|i: int| 0 <= i < sorted.len() implies span_valid(#[trigger] sorted[i]) by {
        lemma_ordered_contains(spans, sorted[i]);
        assert(sorted.contains(sorted[i]));
    }
    assert forall|i: int, j: int| 0 <= i < j < sorted.len() implies !collides(
        #[trigger] sorted[i],
        #[trigger] sorted[j],
    ) by {
        lemma_ordered_contains(spans, sorted[i]);
        lemma_ordered_contains(spans, sorted[j]);
        assert(sorted.contains(sorted[i]));
        assert(sorted.contains(sorted[j]));
        let a = choose|a: int| 0 <= a < spans.len() && spans[a] == sorted[i];
        let b = choose|b: int| 0 <= b < spans.len() && spans[b] == sorted[j];
        assert(sorted[i] != sorted[j]);
        if a < b {
            assert(!collides(spans[a], spans[b]));
        } else {
            assert(!collides(spans[b], spans[a]));
        }
    }
}

/// Spans in ascending order that are apart follow one another: each starts
/// where the one before it has ended, or later.
pub proof fn lemma_in_sequence(spans: Seq<KanjiSpan>, i: int, j: int)
    requires
        ascending(spans),
        apart(spans),
        all_valid(spans),
        0 <= i < j < spans.len(),
    ensures
        span_end(spans[i]) <= spans[j].0,
{
    assert(span_order()(spans[i], spans[j]));
    assert(!collides(spans[i], spans[j]));
    assert(span_valid(spans[i]) && span_valid(spans[j]));
}

/// Among spans that follow one another, none is passed over for a span
/// applied earlier: every span of `spans[from..]` that lies within the kana
/// and has a glyph is applied.
pub proof fn lemma_none_passed_over(
    rules: Seq<RuleNode>,
    kana: Seq<char>,
    spans: Seq<KanjiSpan>,
    from: int,
    pos: int,
    k: int,
)
    requires
        ascending(spans),
        apart(spans),
        all_valid(spans),
        0 <= from <= k < spans.len(),
        pos <= spans[from].0,
        span_end(spans[k]) <= kana.len(),
        glyph_for(rules, kana, spans[k]) is Some,
    ensures
        applied(rules, kana, spans, from, pos).contains(spans[k]),
    decreases spans.len() - from,
{
    let all = applied(rules, kana, spans, from, pos);
    if from == k {
        assert(applies(rules, kana, spans[from], pos));
        assert(all[0] == spans[k]);
    } else {
        lemma_in_sequence(spans, from, from + 1);
        if applies(rules, kana, spans[from], pos) {
            let rest = applied(rules, kana, spans, from + 1, span_end(spans[from]));
            lemma_none_passed_over(rules, kana, spans, from + 1, span_end(spans[from]), k);
            let at = choose|at: int| 0 <= at < rest.len() && rest[at] == spans[k];
            assert(all[at + 1] == spans[k]);
        } else {
            lemma_none_passed_over(rules, kana, spans, from + 1, pos, k);
        }
    }
}

/// A filter that every span passes keeps them all.
pub proof fn lemma_filter_keeps_all(
    spans: Seq<KanjiSpan>,
    keep: spec_fn(KanjiSpan) -> bool,
)
    requires
        forall|i: int| 0 <= i < spans.len() ==> keep(#[trigger] spans[i]),
    ensures
        spans.filter(keep) == spans,
    decreases spans.len(),
{
    reveal(Seq::filter);
    if spans.len() > 0 {
        lemma_filter_keeps_all(spans.drop_last(), keep);
        assert(spans.drop_last().push(spans.last()) =~= spans);
    }
}

/// What a filter keeps was there before.
pub proof fn lemma_filter_keeps_stored(
    spans: Seq<KanjiSpan>,
    keep: spec_fn(KanjiSpan) -> bool,
    i: int,
)
    requires
        0 <= i < spans.filter(keep).len(),
    ensures
        spans.contains(spans.filter(keep)[i]),
    decreases spans.len(),
{
    reveal(Seq::filter);
    if spans.len() > 0 {
        let front = spans.drop_last();
        if i < front.filter(keep).len() {
            lemma_filter_keeps_stored(front, keep, i);
            let j = choose|j: int| 0 <= j < front.len() && front[j] == front.filter(keep)[i];
            assert(spans[j] == spans.filter(keep)[i]);
        } else {
            assert(spans[spans.len() - 1] == spans.filter(keep)[i]);
        }
    }
}

/// Putting spans in order neither adds nor loses one.
pub proof fn lemma_ordered_contains(spans: Seq<KanjiSpan>, span: KanjiSpan)
    ensures
        ordered(spans).contains(span) == spans.contains(span),
{
    lemma_ordered(spans);
    vstd::seq_lib::to_multiset_contains(spans, span);
    vstd::seq_lib::to_multiset_contains(ordered(spans), span);
}

/// A span that ends beyond the kana is dropped, and stays dropped when the
/// kept spans are put in order; a stored span that ends within the kana is
/// kept.
pub proof fn lemma_prune_drops(spans: Seq<KanjiSpan>, count: int, span: KanjiSpan)
    ensures
        span_end(span) > count ==> !pruned(spans, count).contains(span) && !ordered(
            pruned(spans, count),
        ).contains(span),
        span_end(span) <= count && spans.contains(span) ==> pruned(spans, count).contains(span)
            && ordered(pruned(spans, count)).contains(span),
{
    let kept = pruned(spans, count);
    lemma_ordered_contains(kept, span);
    if span_end(span) > count {
        if kept.contains(span) {
            let i = choose|i: int| 0 <= i < kept.len() && kept[i] == span;
            spans.lemma_filter_pred(fits(count), i);
        }
    }
    if span_end(span) <= count && spans.contains(span) {
        let j = choose|j: int| 0 <= j < spans.len() && spans[j] == span;
        assert(fits(count)(spans[j]));
        spans.lemma_filter_contains(fits(count), j);
    }
}

/// With no spans the composite text is the kana.
pub proof fn lemma_overlay_no_spans(rules: Seq<RuleNode>, kana: Seq<char>)
    ensures
        overlay(rules, kana, Seq::empty()) == kana,
{
    assert(kana.subrange(0, kana.len() as int) =~= kana);
}

/// Spans without a glyph leave the kana as it is.
pub proof fn lemma_overlay_no_glyphs(
    rules: Seq<RuleNode>,
    kana: Seq<char>,
    spans: Seq<KanjiSpan>,
    from: int,
    pos: int,
)
    requires
        forall|i: int| 0 <= i < spans.len() ==> glyph_for(rules, kana, #[trigger] spans[i]) is None,
    ensures
        overlay_from(rules, kana, spans, from, pos) == kana.subrange(pos, kana.len() as int),
    decreases spans.len() - from,
{
    if 0 <= from < spans.len() {
        lemma_overlay_no_glyphs(rules, kana, spans, from + 1, pos);
    }
}

/// The spans of `spans[from..]` that are applied when the kana before `pos`
/// is already written, in the order in which they are applied.
pub open spec fn applied(
    rules: Seq<RuleNode>,
    kana: Seq<char>,
    spans: Seq<KanjiSpan>,
    from: int,
    pos: int,
) -> Seq<KanjiSpan>
    decreases spans.len() - from,
{
    if from < 0 || from >= spans.len() {
        Seq::empty()
    } else if applies(rules, kana, spans[from], pos) {
        seq![spans[from]] + applied(rules, kana, spans, from + 1, span_end(spans[from]))
    } else {
        applied(rules, kana, spans, from + 1, pos)
    }
}

/// At most one substitution for each kana position: the spans that are
/// applied lie within the kana at or after `pos`, and each starts where the
/// one before it has ended, or later.
pub proof fn lemma_applied_apart(
    rules: Seq<RuleNode>,
    kana: Seq<char>,
    spans: Seq<KanjiSpan>,
    from: int,
    pos: int,
)
    ensures
        forall|i: int|
            0 <= i < applied(rules, kana, spans, from, pos).len() ==> within_from(
                #[trigger] applied(rules, kana, spans, from, pos)[i],
                pos,
                kana.len() as int,
            ),
        forall|i: int, j: int|
            0 <= i < j < applied(rules, kana, spans, from, pos).len() ==> span_end(
                #[trigger] applied(rules, kana, spans, from, pos)[i],
            ) <= (#[trigger] applied(rules, kana, spans, from, pos)[j]).0,
    decreases spans.len() - from,
{
    let all = applied(rules, kana, spans, from, pos);
    if 0 <= from < spans.len() {
        if applies(rules, kana, spans[from], pos) {
            let next = span_end(spans[from]);
            let rest = applied(rules, kana, spans, from + 1, next);
            lemma_applied_apart(rules, kana, spans, from + 1, next);
            assert(all == seq![spans[from]] + rest);
            assert forall|i: int| 0 <= i < all.len() implies within_from(
                #[trigger] all[i],
                pos,
                kana.len() as int,
            ) by {
                if i > 0 {
                    assert(all[i] == rest[i - 1]);
                    assert(within_from(rest[i - 1], next, kana.len() as int));
                }
            }
            assert forall|i: int, j: int| 0 <= i < j < all.len() implies span_end(
                #[trigger] all[i],
            ) <= (#[trigger] all[j]).0 by {
                assert(all[j] == rest[j - 1]);
                assert(within_from(rest[j - 1], next, kana.len() as int));
                if i > 0 {
                    assert(all[i] == rest[i - 1]);
                }
            }
        } else {
            lemma_applied_apart(rules, kana, spans, from + 1, pos);
            assert(all == applied(rules, kana, spans, from + 1, pos));
        }
    } else {
        assert(all.len() == 0);
    }
}

/// Whether `span` covers at least one character and lies between the
/// positions `pos` and `count`.
pub open spec fn within_from(span: KanjiSpan, pos: int, count: int) -> bool {
    span.1 >= 1 && pos <= span.0 && span_end(span) <= count
}

/// Each applied span puts one glyph in place of the kana it covers: the
/// composite text is shorter than the kana behind `pos` by the characters
/// that the applied spans cover, less one for each of them.
pub proof fn lemma_overlay_len(
    rules: Seq<RuleNode>,
    kana: Seq<char>,
    spans: Seq<KanjiSpan>,
    from: int,
    pos: int,
)
    requires
        0 <= pos <= kana.len(),
    ensures
        overlay_from(rules, kana, spans, from, pos).len() + covered(
            applied(rules, kana, spans, from, pos),
        ) == kana.len() - pos + applied(rules, kana, spans, from, pos).len(),
    decreases spans.len() - from,
{
    if 0 <= from < spans.len() {
        if applies(rules, kana, spans[from], pos) {
            let rest = applied(rules, kana, spans, from + 1, span_end(spans[from]));
            lemma_overlay_len(rules, kana, spans, from + 1, span_end(spans[from]));
            assert((seq![spans[from]] + rest).drop_first() =~= rest);
        } else {
            lemma_overlay_len(rules, kana, spans, from + 1, pos);
        }
    }
}

/// The number of kana characters that `spans` cover, taken one by one.
pub open spec fn covered(spans: Seq<KanjiSpan>) -> int
    decreases spans.len(),
{
    if spans.len() == 0 {
        0
    } else {
        spans[0].1 + covered(spans.drop_first())
    }
}

} // verus!
