//! Kana to kanji: an all-or-nothing lookup in an ordered rule tree.

use vstd::prelude::*;
use crate::rules::emitted;
use crate::rules::RuleNode;

verus! {

/// The glyphs that `node` gives for `input[at..]`, if it spells it.
///
/// The node must match the character at `at` by its key. Where that is the
/// last character, the node's emission is the answer, and there is none if
/// the node has no emission. Otherwise the rest of the input is looked up
/// among the node's children.
pub open spec fn read(node: RuleNode, input: Seq<char>, at: int) -> Option<Seq<char>>
    decreases node, 0nat,
{
    if 0 <= at < input.len() && input[at] == node.key {
        if at + 1 == input.len() {
            node.emission
        } else {
            read_any(node.children, 0, input, at + 1)
        }
    } else {
        None
    }
}

/// The glyphs of the first node among `nodes[from..]`, in order, that spells
/// `input[at..]`.
pub open spec fn read_any(
    nodes: Seq<RuleNode>,
    from: int,
    input: Seq<char>,
    at: int,
) -> Option<Seq<char>>
    decreases nodes, nodes.len() - from,
{
    if from < 0 || from >= nodes.len() {
        None
    } else {
        match read(nodes[from], input, at) {
            Some(glyphs) => Some(glyphs),
            None => read_any(nodes, from + 1, input, at),
        }
    }
}

/// The candidate glyphs for the whole of `input` under the rules `roots`:
/// those of the first rule chain that spells it, or none.
pub open spec fn kanji_of(roots: Seq<RuleNode>, input: Seq<char>) -> Seq<char> {
    match read_any(roots, 0, input, 0) {
        Some(glyphs) => glyphs,
        None => Seq::empty(),
    }
}

/// Whether `path` names a chain of rules that spells `input[at..]`.
///
/// `path[0]` is the index, among `nodes`, of a rule whose key is the
/// character at `at`; `path[1]` is the index, among the children of that
/// rule, of a rule whose key is the next character; and so on, one rule for
/// each character up to the last, where the rule has a glyph list.
pub open spec fn spells(nodes: Seq<RuleNode>, path: Seq<int>, input: Seq<char>, at: int) -> bool
    decreases path.len(),
{
    &&& path.len() > 0
    &&& 0 <= path[0] < nodes.len()
    &&& 0 <= at < input.len()
    &&& nodes[path[0]].key == input[at]
    &&& if at + 1 == input.len() {
        path.len() == 1 && nodes[path[0]].emission is Some
    } else {
        spells(nodes[path[0]].children, path.drop_first(), input, at + 1)
    }
}

/// The glyph list of the last rule on `path`.
pub open spec fn glyphs_at(nodes: Seq<RuleNode>, path: Seq<int>) -> Seq<char>
    decreases path.len(),
{
    if path.len() == 0 {
        Seq::empty()
    } else if path.len() == 1 {
        emitted(nodes[path[0]])
    } else {
        glyphs_at(nodes[path[0]].children, path.drop_first())
    }
}

/// A chain has one rule for each character that it spells.
pub proof fn lemma_chain_len(nodes: Seq<RuleNode>, path: Seq<int>, input: Seq<char>, at: int)
    requires
        spells(nodes, path, input, at),
    ensures
        path.len() == input.len() - at,
    decreases path.len(),
{
    if at + 1 < input.len() {
        lemma_chain_len(nodes[path[0]].children, path.drop_first(), input, at + 1);
    }
}

/// The chain that the lookup among `nodes[from..]` follows: at each level
/// the first rule, in declared order, below which the rest of the input is
/// spelled. It is empty where the lookup gives nothing.
pub open spec fn first_chain(nodes: Seq<RuleNode>, from: int, input: Seq<char>, at: int) -> Seq<int>
    decreases nodes, nodes.len() - from,
{
    if from < 0 || from >= nodes.len() {
        Seq::empty()
    } else if read(nodes[from], input, at) is Some {
        if at + 1 == input.len() {
            seq![from]
        } else {
            seq![from] + first_chain(nodes[from].children, 0, input, at + 1)
        }
    } else {
        first_chain(nodes, from + 1, input, at)
    }
}

/// Whether the chain `a` is the chain `b` or comes before it in declared
/// order: at the first level where they part, `a` takes the earlier rule.
pub open spec fn comes_first(a: Seq<int>, b: Seq<int>) -> bool
    decreases a.len(),
{
    &&& a.len() == b.len()
    &&& (a.len() == 0 || a[0] < b[0] || (a[0] == b[0] && comes_first(
        a.drop_first(),
        b.drop_first(),
    )))
}

/// An answer is never partial: where the lookup among `nodes[from..]` gives
/// glyphs, they are the whole glyph list at the end of a chain of rules that
/// spells all of `input[at..]`, the chain that the lookup follows.
pub proof fn lemma_read_has_chain(nodes: Seq<RuleNode>, from: int, input: Seq<char>, at: int)
    requires
        read_any(nodes, from, input, at) is Some,
    ensures
        spells(nodes, first_chain(nodes, from, input, at), input, at),
        from <= first_chain(nodes, from, input, at)[0],
        read_any(nodes, from, input, at) == Some(
            glyphs_at(nodes, first_chain(nodes, from, input, at)),
        ),
    decreases nodes, nodes.len() - from,
{
    if read(nodes[from], input, at) is Some {
        if at + 1 < input.len() {
            let rest = first_chain(nodes[from].children, 0, input, at + 1);
            lemma_read_has_chain(nodes[from].children, 0, input, at + 1);
            assert((seq![from] + rest).drop_first() =~= rest);
        }
    } else {
        lemma_read_has_chain(nodes, from + 1, input, at);
    }
}

/// The lookup misses no chain and keeps to the declared order: where a chain
/// of rules that starts among `nodes[from..]` spells all of `input[at..]`,
/// the lookup gives glyphs, and the chain that it follows is that chain or
/// comes before it.
pub proof fn lemma_chain_is_read(
    nodes: Seq<RuleNode>,
    from: int,
    input: Seq<char>,
    at: int,
    path: Seq<int>,
)
    requires
        spells(nodes, path, input, at),
        0 <= from <= path[0],
    ensures
        read_any(nodes, from, input, at) is Some,
        comes_first(first_chain(nodes, from, input, at), path),
    decreases path.len(), path[0] - from,
{
    let first = first_chain(nodes, from, input, at);
    if from < path[0] {
        lemma_chain_is_read(nodes, from + 1, input, at, path);
        if read(nodes[from], input, at) is Some {
            lemma_read_has_chain(nodes, from, input, at);
            lemma_chain_len(nodes, first, input, at);
            lemma_chain_len(nodes, path, input, at);
            assert(first[0] == from);
        }
    } else if at + 1 < input.len() {
        let below = nodes[from].children;
        let rest = path.drop_first();
        assert(spells(below, rest, input, at + 1));
        assert(0 <= rest[0]);
        lemma_chain_is_read(below, 0, input, at + 1, rest);
        assert(read(nodes[from], input, at) == read_any(below, 0, input, at + 1));
        assert(first == seq![from] + first_chain(below, 0, input, at + 1));
        assert(first.drop_first() =~= first_chain(below, 0, input, at + 1));
        assert(comes_first(first.drop_first(), rest));
        assert(first[0] == path[0]);
    } else {
        assert(read(nodes[from], input, at) == nodes[from].emission);
        assert(first == seq![from]);
        assert(first.drop_first() =~= path.drop_first());
        assert(comes_first(first.drop_first(), path.drop_first()));
    }
}

/// The candidates are empty where no chain of rules spells the whole input.
pub proof fn lemma_no_chain_no_kanji(roots: Seq<RuleNode>, input: Seq<char>)
    requires
        forall|path: Seq<int>| !spells(roots, path, input, 0),
    ensures
        kanji_of(roots, input) == Seq::<char>::empty(),
{
    if read_any(roots, 0, input, 0) is Some {
        lemma_read_has_chain(roots, 0, input, 0);
    }
}

/// Where a chain of rules spells the whole input, the candidates are the
/// whole glyph list at the end of the first such chain in declared order.
pub proof fn lemma_chain_gives_kanji(roots: Seq<RuleNode>, input: Seq<char>, path: Seq<int>)
    requires
        spells(roots, path, input, 0),
    ensures
        spells(roots, first_chain(roots, 0, input, 0), input, 0),
        comes_first(first_chain(roots, 0, input, 0), path),
        kanji_of(roots, input) == glyphs_at(roots, first_chain(roots, 0, input, 0)),
{
    lemma_chain_is_read(roots, 0, input, 0, path);
    lemma_read_has_chain(roots, 0, input, 0);
}

/// Candidates that are not empty are the whole glyph list at the end of a
/// chain of rules that spells the whole input.
pub proof fn lemma_kanji_has_chain(roots: Seq<RuleNode>, input: Seq<char>)
    requires
        kanji_of(roots, input).len() > 0,
    ensures
        spells(roots, first_chain(roots, 0, input, 0), input, 0),
        kanji_of(roots, input) == glyphs_at(roots, first_chain(roots, 0, input, 0)),
{
    lemma_read_has_chain(roots, 0, input, 0);
}

/// The empty input has no candidates.
pub proof fn lemma_empty_input_no_kanji(roots: Seq<RuleNode>)
    ensures
        kanji_of(roots, Seq::<char>::empty()) == Seq::<char>::empty(),
{
    lemma_read_fails_outside(roots, 0, Seq::<char>::empty(), 0);
}

/// No rule spells anything from a position outside the input.
pub proof fn lemma_read_fails_outside(nodes: Seq<RuleNode>, from: int, input: Seq<char>, at: int)
    requires
        at < 0 || at >= input.len(),
    ensures
        read_any(nodes, from, input, at) is None,
    decreases nodes.len() - from,
{
    if 0 <= from < nodes.len() {
        assert(read(nodes[from], input, at) is None);
        lemma_read_fails_outside(nodes, from + 1, input, at);
    }
}

/// One rule of the kanji grammar.
pub struct Kanji {
    pub key: char,
    pub value: Option<Vec<char>>,
    pub next: Vec<Kanji>,
}

/// The rule tree that a `Kanji` stands for.
pub open spec fn kanji_model(rule: Kanji) -> RuleNode
    decreases rule,
{
    RuleNode {
        key: rule.key,
        emission: match rule.value {
            Some(glyphs) => Some(glyphs@),
            None => None,
        },
        children: Seq::new(
            rule.next@.len(),
            |i: int|
                if 0 <= i < rule.next@.len() {
                    kanji_model(rule.next@[i])
                } else {
                    arbitrary()
                },
        ),
    }
}

impl View for Kanji {
    type V = RuleNode;

    open spec fn view(&self) -> RuleNode {
        kanji_model(*self)
    }
}

/// The rule trees that a list of `Kanji` stands for, in the same order.
pub open spec fn kanji_models(rules: Seq<Kanji>) -> Seq<RuleNode> {
    Seq::new(rules.len(), |i: int| kanji_model(rules[i]))
}

/// The children of a rule's model are the models of its children.
pub proof fn lemma_kanji_children(rule: Kanji)
    ensures
        kanji_model(rule).children == kanji_models(rule.next@),
{
    assert(kanji_model(rule).children =~= kanji_models(rule.next@));
}

/// The kanji grammar: its root rules, in order of precedence.
pub struct Head {
    pub roots: Vec<Kanji>,
}

impl View for Head {
    type V = Seq<RuleNode>;

    open spec fn view(&self) -> Seq<RuleNode> {
        kanji_models(self.roots@)
    }
}

/// The cursor of one lookup: the kana, how much of it the rule chain under
/// trial has spelled, and the glyphs found.
struct Phrase<'a> {
    hiragana: &'a String,
    count: usize,
    kanji: Vec<char>,
    offset: usize,
}

impl<'a> Phrase<'a> {
    /// `count` is the length of the kana in characters, and the offset lies
    /// within it.
    spec fn wf(&self) -> bool {
        &&& self.count == self.hiragana@.len()
        &&& self.offset <= self.count
    }

    /// Whether the character at the offset is `key`.
    spec fn at_key(&self, key: char) -> bool {
        self.offset < self.count && self.hiragana@[self.offset as int] == key
    }

    /// Whether the character at the offset is the last.
    spec fn at_last(&self) -> bool {
        self.offset + 1 == self.count
    }

    /// Since `before`, neither the offset nor the glyphs have changed.
    spec fn unmoved(&self, before: &Phrase) -> bool {
        self.offset == before.offset && self.kanji@ == before.kanji@
    }

    fn new(phrase: &'a String) -> (cursor: Self)
        ensures
            cursor.wf(),
            cursor.hiragana@ == phrase@,
            cursor.kanji@ == Seq::<char>::empty(),
            cursor.offset == 0,
    {
        Phrase {
            hiragana: phrase,
            count: phrase.as_str().unicode_len(),
            kanji: Vec::new(),
            offset: 0,
        }
    }

    /// Compares the character at the offset with the key of `node` and moves
    /// past it on a match. A match on the last character counts only if the
    /// node has glyphs, which are then taken.
    fn compare(&mut self, node: &Kanji) -> (matched: bool)
        requires
            old(self).wf(),
        ensures
            final(self).wf(),
            final(self).hiragana@ == old(self).hiragana@,
            matched == (old(self).at_key(node.key) && (!old(self).at_last()
                || node.value is Some)),
            matched ==> final(self).offset == old(self).offset + 1,
            matched && old(self).at_last() ==> final(self).kanji@ == node.value->0@,
            matched && !old(self).at_last() ==> final(self).kanji@ == old(self).kanji@,
            !matched ==> final(self).unmoved(old(self)),
    {
        if self.offset < self.count {
            let first = self.hiragana.as_str().get_char(self.offset);
            if node.key == first {
                if self.offset + 1 < self.count {
                    self.offset += 1;
                    return true;
                }
                if let Some(value) = &node.value {
                    self.offset += 1;
                    self.kanji = value.clone();
                    return true;
                }
            }
        }
        false
    }

    fn done(&self) -> (finished: bool)
        requires
            self.wf(),
        ensures
            finished == (self.offset == self.hiragana@.len()),
    {
        self.offset == self.count
    }

    /// Goes back to the start of the kana.
    fn reset(&mut self)
        requires
            old(self).wf(),
        ensures
            final(self).wf(),
            final(self).hiragana@ == old(self).hiragana@,
            final(self).kanji@ == old(self).kanji@,
            final(self).offset == 0,
    {
        self.offset = 0;
    }

    fn get_kanji(self) -> (kanji: Vec<char>)
        ensures
            kanji@ == self.kanji@,
    {
        self.kanji
    }
}

/// Looks up the kanji candidates for a run of kana by the rules it was made
/// with.
pub struct HiragaToKanjiConverter {
    head: Head,
}

impl View for HiragaToKanjiConverter {
    type V = Seq<RuleNode>;

    closed spec fn view(&self) -> Seq<RuleNode> {
        self.head@
    }
}

impl HiragaToKanjiConverter {
    /// A converter for the grammar `head`.
    pub fn new(head: Head) -> (converter: Self)
        ensures
            converter@ == head@,
    {
        HiragaToKanjiConverter { head }
    }

    /// The grammar of the converter, to read.
    pub fn head(&self) -> (head: &Head)
        ensures
            head@ == self@,
    {
        &self.head
    }

    /// Tries the roots in order on the whole kana.
    fn convert_phrase(&self, phrase: &mut Phrase)
        requires
            old(phrase).wf(),
            old(phrase).offset == 0,
            old(phrase).kanji@ == Seq::<char>::empty(),
        ensures
            final(phrase).kanji@ == kanji_of(self@, old(phrase).hiragana@),
    {
        let mut i: usize = 0;
        while i < self.head.roots.len()
            invariant
                i <= self.head.roots.len(),
                phrase.wf(),
                phrase.hiragana@ == old(phrase).hiragana@,
                phrase.offset == 0,
                phrase.kanji@ == Seq::<char>::empty(),
                read_any(self@, 0, phrase.hiragana@, 0) == read_any(
                    self@,
                    i as int,
                    phrase.hiragana@,
                    0,
                ),
            decreases self.head.roots.len() - i,
        {
            assert(self@[i as int] == self.head.roots@[i as int]@);
            if self.iterate_kanji(&self.head.roots[i], phrase) {
                return ;
            } else {
                phrase.reset();
            }
            i += 1;
        }
    }

    /// Spells the kana from the offset on with `node` and, below it, the
    /// first of its children that spells the rest. A failed attempt leaves
    /// the cursor as it was.
    fn iterate_kanji(&self, node: &Kanji, phrase: &mut Phrase) -> (matched: bool)
        requires
            old(phrase).wf(),
        ensures
            final(phrase).wf(),
            final(phrase).hiragana@ == old(phrase).hiragana@,
            match read(node@, old(phrase).hiragana@, old(phrase).offset as int) {
                Some(glyphs) => matched && final(phrase).kanji@ == glyphs,
                None => !matched && final(phrase).unmoved(old(phrase)),
            },
        decreases node,
    {
        if !phrase.compare(node) {
            return false;
        }
        if phrase.done() {
            return true;
        }
        proof {
            lemma_kanji_children(*node);
        }
        let ghost input = phrase.hiragana@;
        let ghost at = phrase.offset as int;
        let mut i: usize = 0;
        while i < node.next.len()
            invariant
                i <= node.next.len(),
                phrase.wf(),
                phrase.hiragana@ == input,
                input == old(phrase).hiragana@,
                phrase.offset == at,
                at == old(phrase).offset + 1,
                at < input.len(),
                input[at - 1] == node.key,
                phrase.kanji@ == old(phrase).kanji@,
                node@.children == kanji_models(node.next@),
                read_any(node@.children, 0, input, at) == read_any(
                    node@.children,
                    i as int,
                    input,
                    at,
                ),
            decreases node.next.len() - i,
        {
            assert(node@.children[i as int] == node.next@[i as int]@);
            if self.iterate_kanji(&node.next[i], phrase) {
                return true;
            }
            i += 1;
        }
        phrase.offset -= 1;
        false
    }

    /// The candidate glyphs for `hiragana`, best first.
    ///
    /// The rules must spell the whole of the kana: the answer is the glyph
    /// list of the first rule chain, in declared order, that matches it
    /// character by character and ends on its last character with a glyph
    /// list. Where there is no such chain the answer is empty.
    pub fn convert(&self, hiragana: &String) -> (kanji: Vec<char>)
        ensures
            kanji@ == kanji_of(self@, hiragana@),
    {
        let mut phrase = Phrase::new(hiragana);
        self.convert_phrase(&mut phrase);
        phrase.get_kanji()
    }
}

} // verus!
