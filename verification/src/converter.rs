//! Romaji to kana: a greedy tokenizer driven by an ordered rule tree.

use vstd::prelude::*;
use crate::rules::emitted;
use crate::rules::RuleNode;
use crate::text::string_push;

verus! {

/// What one successful match yields: the number of input characters it
/// consumes and the kana it writes.
pub struct Token {
    pub len: nat,
    pub out: Seq<char>,
}

/// The match of `node` against `input` at position `at`.
///
/// The node matches the character at `at` by its key and writes its emission.
/// Its children are then tried in order on the following character, and the
/// first that matches extends the token. Where none does, the node itself
/// completes the token if it has an emission or no children at all; a node
/// with children and no emission is only a prefix of longer rules and fails.
pub open spec fn walk(node: RuleNode, input: Seq<char>, at: int) -> Option<Token>
    decreases node, 0nat,
{
    if 0 <= at < input.len() && input[at] == node.key {
        match walk_any(node.children, 0, input, at + 1) {
            Some(t) => Some(Token { len: t.len + 1, out: emitted(node) + t.out }),
            None => if node.emission is Some || node.children.len() == 0 {
                Some(Token { len: 1, out: emitted(node) })
            } else {
                None
            },
        }
    } else {
        None
    }
}

/// The match of the first node among `nodes[from..]`, in order, that matches
/// `input` at position `at`.
pub open spec fn walk_any(
    nodes: Seq<RuleNode>,
    from: int,
    input: Seq<char>,
    at: int,
) -> Option<Token>
    decreases nodes, nodes.len() - from,
{
    if from < 0 || from >= nodes.len() {
        None
    } else {
        match walk(nodes[from], input, at) {
            Some(t) => Some(t),
            None => walk_any(nodes, from + 1, input, at),
        }
    }
}

/// A token consumes at least the character it started on and never reads past
/// the end of the input.
pub proof fn lemma_walk_bounds(node: RuleNode, input: Seq<char>, at: int)
    ensures
        walk(node, input, at) matches Some(t) ==> 1 <= t.len && 0 <= at && at + t.len
            <= input.len(),
    decreases node, 0nat,
{
    if 0 <= at < input.len() && input[at] == node.key {
        lemma_walk_any_bounds(node.children, 0, input, at + 1);
    }
}

/// The bounds of `lemma_walk_bounds`, for the first match among several nodes.
pub proof fn lemma_walk_any_bounds(nodes: Seq<RuleNode>, from: int, input: Seq<char>, at: int)
    ensures
        walk_any(nodes, from, input, at) matches Some(t) ==> 1 <= t.len && 0 <= at && at + t.len
            <= input.len(),
    decreases nodes, nodes.len() - from,
{
    if 0 <= from < nodes.len() {
        lemma_walk_bounds(nodes[from], input, at);
        lemma_walk_any_bounds(nodes, from + 1, input, at);
    }
}

/// The token read at position `at`: the first root that matches, or, where no
/// root does, the input character itself, copied as it is.
pub open spec fn token_at(roots: Seq<RuleNode>, input: Seq<char>, at: int) -> Token {
    match walk_any(roots, 0, input, at) {
        Some(t) => t,
        None => Token { len: 1, out: seq![input[at]] },
    }
}

/// The kana for `input[at..]`: token after token, until the input is used up.
pub open spec fn kana_from(roots: Seq<RuleNode>, input: Seq<char>, at: int) -> Seq<char>
    decreases input.len() - at,
{
    if at < 0 || at >= input.len() {
        Seq::empty()
    } else {
        let t = token_at(roots, input, at);
        proof {
            lemma_walk_any_bounds(roots, 0, input, at);
        }
        t.out + kana_from(roots, input, at + t.len)
    }
}

/// The kana for the whole of `input` under the rules `roots`.
pub open spec fn kana_of(roots: Seq<RuleNode>, input: Seq<char>) -> Seq<char> {
    kana_from(roots, input, 0)
}

/// The declared order decides: the first node, in order, that matches gives
/// the token, whatever the nodes behind it would give.
pub proof fn lemma_first_match_wins(
    nodes: Seq<RuleNode>,
    from: int,
    input: Seq<char>,
    at: int,
    first: int,
)
    requires
        0 <= from <= first < nodes.len(),
        walk(nodes[first], input, at) is Some,
        forall|i: int| from <= i < first ==> walk(#[trigger] nodes[i], input, at) is None,
    ensures
        walk_any(nodes, from, input, at) == walk(nodes[first], input, at),
    decreases first - from,
{
    if from < first {
        assert(walk(nodes[from], input, at) is None);
        lemma_first_match_wins(nodes, from + 1, input, at, first);
    }
}

/// Where none of the nodes matches there is no token, and a token is always
/// that of a node that matches while no node before it does.
pub proof fn lemma_match_is_first(nodes: Seq<RuleNode>, from: int, input: Seq<char>, at: int)
    requires
        0 <= from,
    ensures
        walk_any(nodes, from, input, at) is None <==> forall|i: int|
            from <= i < nodes.len() ==> walk(#[trigger] nodes[i], input, at) is None,
        walk_any(nodes, from, input, at) is Some ==> exists|first: int|
            from <= first < nodes.len() && walk_any(nodes, from, input, at) == walk(
                #[trigger] nodes[first],
                input,
                at,
            ) && forall|i: int| from <= i < first ==> walk(#[trigger] nodes[i], input, at) is None,
    decreases nodes.len() - from,
{
    if from < nodes.len() {
        lemma_match_is_first(nodes, from + 1, input, at);
        if walk(nodes[from], input, at) is Some {
            assert(walk_any(nodes, from, input, at) == walk(nodes[from], input, at));
        } else {
            if walk_any(nodes, from, input, at) is Some {
                let first = choose|first: int|
                    from + 1 <= first < nodes.len() && walk_any(nodes, from + 1, input, at) == walk(
                        #[trigger] nodes[first],
                        input,
                        at,
                    ) && forall|i: int|
                        from + 1 <= i < first ==> walk(#[trigger] nodes[i], input, at) is None;
                assert forall|i: int| from <= i < first implies walk(
                    #[trigger] nodes[i],
                    input,
                    at,
                ) is None by {
                    if i > from {
                    }
                }
                assert(walk_any(nodes, from, input, at) == walk(nodes[first], input, at));
            }
            assert forall|i: int| from <= i < nodes.len() && walk_any(
                nodes,
                from,
                input,
                at,
            ) is None implies walk(#[trigger] nodes[i], input, at) is None by {
                if i > from {
                }
            }
        }
    }
}

/// Whether `path` names a chain of rules whose keys are the characters of
/// `input` from `at` on: `path[0]` is the index of a rule among `nodes`,
/// `path[1]` the index of a rule among the children of that rule, and so on.
pub open spec fn follows(nodes: Seq<RuleNode>, path: Seq<int>, input: Seq<char>, at: int) -> bool
    decreases path.len(),
{
    path.len() == 0 || {
        &&& 0 <= path[0] < nodes.len()
        &&& 0 <= at < input.len()
        &&& nodes[path[0]].key == input[at]
        &&& follows(nodes[path[0]].children, path.drop_first(), input, at + 1)
    }
}

/// The emissions of the rules on `path`, in the order of the chain.
pub open spec fn written(nodes: Seq<RuleNode>, path: Seq<int>) -> Seq<char>
    decreases path.len(),
{
    if path.len() == 0 {
        Seq::empty()
    } else {
        emitted(nodes[path[0]]) + written(nodes[path[0]].children, path.drop_first())
    }
}

/// The last rule on `path`.
pub open spec fn last_on(nodes: Seq<RuleNode>, path: Seq<int>) -> RuleNode
    decreases path.len(),
{
    if path.len() <= 1 {
        nodes[path[0]]
    } else {
        last_on(nodes[path[0]].children, path.drop_first())
    }
}

/// The chain of rules that the match among `nodes[from..]` follows: the
/// first node that matches, then the chain that the match follows among its
/// children. It is empty where no node matches.
pub open spec fn token_chain(nodes: Seq<RuleNode>, from: int, input: Seq<char>, at: int) -> Seq<int>
    decreases nodes, nodes.len() - from,
{
    if from < 0 || from >= nodes.len() {
        Seq::empty()
    } else if walk(nodes[from], input, at) is Some {
        seq![from] + token_chain(nodes[from].children, 0, input, at + 1)
    } else {
        token_chain(nodes, from + 1, input, at)
    }
}

/// Kana is never half written: a token is the work of one chain of rules
/// that all matched. The chain has one rule for each character of the token,
/// the keys of its rules are those characters, the token's kana is what the
/// rules emit, in order, and the chain ends on a rule that has an emission,
/// or no children, and none of whose children matches what follows.
pub proof fn lemma_token_has_chain(nodes: Seq<RuleNode>, from: int, input: Seq<char>, at: int)
    requires
        walk_any(nodes, from, input, at) is Some,
    ensures
        token_chain(nodes, from, input, at).len() == walk_any(nodes, from, input, at)->0.len,
        from <= token_chain(nodes, from, input, at)[0],
        follows(nodes, token_chain(nodes, from, input, at), input, at),
        written(nodes, token_chain(nodes, from, input, at)) == walk_any(
            nodes,
            from,
            input,
            at,
        )->0.out,
        ends_token(
            last_on(nodes, token_chain(nodes, from, input, at)),
            input,
            at + token_chain(nodes, from, input, at).len(),
        ),
    decreases nodes, nodes.len() - from,
{
    let chain = token_chain(nodes, from, input, at);
    if walk(nodes[from], input, at) is Some {
        let below = nodes[from].children;
        let rest = token_chain(below, 0, input, at + 1);
        assert(chain.drop_first() =~= rest);
        if walk_any(below, 0, input, at + 1) is Some {
            lemma_token_has_chain(below, 0, input, at + 1);
            lemma_walk_any_bounds(below, 0, input, at + 1);
            assert(chain.len() == 1 + rest.len());
            assert(last_on(nodes, chain) == last_on(below, rest));
        } else {
            lemma_no_token_no_chain(below, 0, input, at + 1);
            assert(chain =~= seq![from]);
            assert(last_on(nodes, chain) == nodes[from]);
            assert(written(below, rest) =~= Seq::<char>::empty());
            assert(emitted(nodes[from]) + Seq::<char>::empty() =~= emitted(nodes[from]));
        }
    } else {
        lemma_token_has_chain(nodes, from + 1, input, at);
    }
}

/// Whether a token can end on `node` with the input at `at`: the node has an
/// emission, or no children, and none of its children matches at `at`.
pub open spec fn ends_token(node: RuleNode, input: Seq<char>, at: int) -> bool {
    &&& node.emission is Some || node.children.len() == 0
    &&& walk_any(node.children, 0, input, at) is None
}

/// Where no node matches, the match follows no chain.
pub proof fn lemma_no_token_no_chain(nodes: Seq<RuleNode>, from: int, input: Seq<char>, at: int)
    requires
        walk_any(nodes, from, input, at) is None,
    ensures
        token_chain(nodes, from, input, at).len() == 0,
    decreases nodes.len() - from,
{
    if 0 <= from < nodes.len() {
        lemma_no_token_no_chain(nodes, from + 1, input, at);
    }
}

/// Whether `c` is unmapped: it is the key of no root.
pub open spec fn unmapped(roots: Seq<RuleNode>, c: char) -> bool {
    forall|i: int| 0 <= i < roots.len() ==> (#[trigger] roots[i]).key != c
}

/// No root matches at a character that is the key of none of them.
pub proof fn lemma_unmapped_unmatched(roots: Seq<RuleNode>, from: int, input: Seq<char>, at: int)
    requires
        0 <= at < input.len(),
        unmapped(roots, input[at]),
    ensures
        walk_any(roots, from, input, at) is None,
    decreases roots.len() - from,
{
    if 0 <= from < roots.len() {
        assert(walk(roots[from], input, at) is None);
        lemma_unmapped_unmatched(roots, from + 1, input, at);
    }
}

/// Where no root matches at `at`, the character there is copied as it is and
/// the conversion goes on exactly one character later.
pub proof fn lemma_unmatched_is_copied(roots: Seq<RuleNode>, input: Seq<char>, at: int)
    requires
        0 <= at < input.len(),
        walk_any(roots, 0, input, at) is None,
    ensures
        token_at(roots, input, at) == (Token { len: 1, out: seq![input[at]] }),
        kana_from(roots, input, at) == seq![input[at]] + kana_from(roots, input, at + 1),
{
}

/// An unmapped character is copied as it is and the conversion goes on
/// exactly one character later.
pub proof fn lemma_unmapped_is_copied(roots: Seq<RuleNode>, input: Seq<char>, at: int)
    requires
        0 <= at < input.len(),
        unmapped(roots, input[at]),
    ensures
        kana_from(roots, input, at) == seq![input[at]] + kana_from(roots, input, at + 1),
{
    lemma_unmapped_unmatched(roots, 0, input, at);
    lemma_unmatched_is_copied(roots, input, at);
}

/// Where a root matches at `at`, its token is taken and the conversion goes
/// on behind it.
pub proof fn lemma_matched_is_taken(roots: Seq<RuleNode>, input: Seq<char>, at: int)
    requires
        walk_any(roots, 0, input, at) is Some,
    ensures
        kana_from(roots, input, at) == walk_any(roots, 0, input, at)->0.out + kana_from(
            roots,
            input,
            at + walk_any(roots, 0, input, at)->0.len,
        ),
{
    lemma_walk_any_bounds(roots, 0, input, at);
}

/// The kana is a function of the rules and the input alone: two conversions
/// of the same input under the same rules give the same characters, and so
/// the same bytes.
pub proof fn lemma_convert_deterministic(
    rules: Seq<RuleNode>,
    input: Seq<char>,
    first: String,
    second: String,
)
    requires
        first@ == kana_of(rules, input),
        second@ == kana_of(rules, input),
    ensures
        first@ == second@,
        vstd::utf8::encode_utf8(first@) == vstd::utf8::encode_utf8(second@),
{
}

/// One rule of the kana grammar.
pub struct Kana {
    pub key: char,
    pub value: Option<String>,
    pub next: Vec<Kana>,
}

/// The rule tree that a `Kana` stands for.
pub open spec fn kana_model(rule: Kana) -> RuleNode
    decreases rule,
{
    RuleNode {
        key: rule.key,
        emission: match rule.value {
            Some(s) => Some(s@),
            None => None,
        },
        children: Seq::new(
            rule.next@.len(),
            |i: int|
                if 0 <= i < rule.next@.len() {
                    kana_model(rule.next@[i])
                } else {
                    arbitrary()
                },
        ),
    }
}

impl View for Kana {
    type V = RuleNode;

    open spec fn view(&self) -> RuleNode {
        kana_model(*self)
    }
}

/// The rule trees that a list of `Kana` stands for, in the same order.
pub open spec fn kana_models(rules: Seq<Kana>) -> Seq<RuleNode> {
    Seq::new(rules.len(), |i: int| kana_model(rules[i]))
}

/// The children of a rule's model are the models of its children.
pub proof fn lemma_kana_children(rule: Kana)
    ensures
        kana_model(rule).children == kana_models(rule.next@),
{
    assert(kana_model(rule).children =~= kana_models(rule.next@));
}

/// The kana grammar: its root rules, in order of precedence.
pub struct Head {
    pub roots: Vec<Kana>,
}

impl View for Head {
    type V = Seq<RuleNode>;

    open spec fn view(&self) -> Seq<RuleNode> {
        kana_models(self.roots@)
    }
}

/// The cursor of one conversion: the input, how much of it is consumed, how
/// long the match in progress is, and the kana written so far.
struct Phrase<'a> {
    romanji: &'a String,
    count: usize,
    kana: String,
    offset: usize,
    len: usize,
}

impl<'a> Phrase<'a> {
    /// `count` is the length of the input in characters, and the match in
    /// progress lies within the input.
    spec fn wf(&self) -> bool {
        &&& self.count == self.romanji@.len()
        &&& self.offset + self.len <= self.count
    }

    /// The position of the next character to compare.
    spec fn cursor(&self) -> int {
        self.offset + self.len
    }

    /// `self` reads the same input as `before` and has consumed as much.
    spec fn continues(&self, before: &Phrase) -> bool {
        &&& self.romanji@ == before.romanji@
        &&& self.count == before.count
        &&& self.offset == before.offset
    }

    /// Whether the next character to compare is `key`.
    spec fn at_key(&self, key: char) -> bool {
        self.cursor() < self.count && self.romanji@[self.cursor()] == key
    }

    /// Since `before`, the match in progress has grown by the token `t`.
    spec fn advanced(&self, before: &Phrase, t: Token) -> bool {
        self.len == before.len + t.len && self.kana@ == before.kana@ + t.out
    }

    /// Since `before`, neither the match in progress nor the kana has
    /// changed.
    spec fn unmoved(&self, before: &Phrase) -> bool {
        self.len == before.len && self.kana@ == before.kana@
    }

    fn new(phrase: &'a String) -> (cursor: Self)
        ensures
            cursor.wf(),
            cursor.romanji@ == phrase@,
            cursor.kana@ == Seq::<char>::empty(),
            cursor.offset == 0,
            cursor.len == 0,
    {
        Phrase {
            romanji: phrase,
            count: phrase.as_str().unicode_len(),
            kana: String::new(),
            offset: 0,
            len: 0,
        }
    }

    /// Compares the next character with the key of `node`. On a match the
    /// character joins the match in progress and the node's emission is
    /// written.
    fn compare(&mut self, node: &Kana) -> (matched: bool)
        requires
            old(self).wf(),
        ensures
            final(self).wf(),
            final(self).continues(old(self)),
            matched == old(self).at_key(node.key),
            matched ==> final(self).advanced(old(self), Token { len: 1, out: emitted(node@) }),
            !matched ==> final(self).unmoved(old(self)),
    {
        if self.offset + self.len < self.count {
            let first = self.romanji.as_str().get_char(self.offset + self.len);
            if node.key == first {
                self.len += 1;
                if let Some(value) = &node.value {
                    self.kana.append(value.as_str());
                }
                return true;
            }
        }
        false
    }

    fn done(&self) -> (finished: bool)
        requires
            self.wf(),
        ensures
            finished == (self.offset >= self.romanji@.len()),
    {
        self.offset >= self.count
    }

    /// Commits the match in progress.
    fn next(&mut self)
        requires
            old(self).wf(),
        ensures
            final(self).wf(),
            final(self).romanji@ == old(self).romanji@,
            final(self).kana@ == old(self).kana@,
            final(self).offset == old(self).offset + old(self).len,
            final(self).len == 0,
    {
        self.offset += self.len;
        self.len = 0;
    }

    /// Copies the character at the offset to the output as it is and moves
    /// past it.
    fn skip(&mut self)
        requires
            old(self).wf(),
        ensures
            final(self).wf(),
            final(self).romanji@ == old(self).romanji@,
            final(self).len == 0,
            old(self).offset < old(self).count ==> final(self).offset == old(self).offset + 1
                && final(self).kana@ == old(self).kana@.push(
                old(self).romanji@[old(self).offset as int],
            ),
            old(self).offset >= old(self).count ==> final(self).offset == old(self).offset
                && final(self).kana@ == old(self).kana@,
    {
        if self.offset < self.count {
            let first = self.romanji.as_str().get_char(self.offset);
            string_push(&mut self.kana, first);
            self.offset += 1;
        }
        self.len = 0;
    }

    /// Gives up the match in progress.
    fn reset(&mut self)
        requires
            old(self).wf(),
        ensures
            final(self).wf(),
            final(self).continues(old(self)),
            final(self).kana@ == old(self).kana@,
            final(self).len == 0,
    {
        self.len = 0;
    }

    fn get_kana(self) -> (kana: String)
        ensures
            kana@ == self.kana@,
    {
        self.kana
    }
}

/// Converts romaji to kana by the rules it was made with.
pub struct RomanjiToKanaConverter {
    head: Head,
}

impl View for RomanjiToKanaConverter {
    type V = Seq<RuleNode>;

    closed spec fn view(&self) -> Seq<RuleNode> {
        self.head@
    }
}

impl RomanjiToKanaConverter {
    /// A converter for the grammar `head`.
    pub fn new(head: Head) -> (converter: Self)
        ensures
            converter@ == head@,
    {
        RomanjiToKanaConverter { head }
    }

    /// The grammar of the converter, to read.
    pub fn head(&self) -> (head: &Head)
        ensures
            head@ == self@,
    {
        &self.head
    }

    /// Tries the roots in order at the cursor's offset.
    fn convert_phrase(&self, phrase: &mut Phrase) -> (matched: bool)
        requires
            old(phrase).wf(),
            old(phrase).len == 0,
        ensures
            final(phrase).wf(),
            final(phrase).continues(old(phrase)),
            match walk_any(self@, 0, old(phrase).romanji@, old(phrase).offset as int) {
                Some(t) => matched && final(phrase).advanced(old(phrase), t),
                None => !matched && final(phrase).unmoved(old(phrase)),
            },
    {
        let mut i: usize = 0;
        while i < self.head.roots.len()
            invariant
                i <= self.head.roots.len(),
                phrase.wf(),
                phrase.continues(old(phrase)),
                phrase.unmoved(old(phrase)),
                old(phrase).len == 0,
                walk_any(self@, 0, phrase.romanji@, phrase.offset as int) == walk_any(
                    self@,
                    i as int,
                    phrase.romanji@,
                    phrase.offset as int,
                ),
            decreases self.head.roots.len() - i,
        {
            assert(self@[i as int] == self.head.roots@[i as int]@);
            if self.iterate_kana(&self.head.roots[i], phrase) {
                return true;
            } else {
                phrase.reset();
            }
            i += 1;
        }
        false
    }

    /// Matches `node` at the cursor and, below it, the first of its children
    /// that matches. A failed attempt leaves the cursor as it was.
    fn iterate_kana(&self, node: &Kana, phrase: &mut Phrase) -> (matched: bool)
        requires
            old(phrase).wf(),
        ensures
            final(phrase).wf(),
            final(phrase).continues(old(phrase)),
            match walk(node@, old(phrase).romanji@, old(phrase).cursor()) {
                Some(t) => matched && final(phrase).advanced(old(phrase), t),
                None => !matched && final(phrase).unmoved(old(phrase)),
            },
        decreases node,
    {
        if !phrase.compare(node) {
            return false;
        }
        proof {
            lemma_kana_children(*node);
        }
        let ghost input = phrase.romanji@;
        let ghost at = phrase.cursor();
        let mut i: usize = 0;
        while i < node.next.len()
            invariant
                i <= node.next.len(),
                phrase.wf(),
                phrase.continues(old(phrase)),
                phrase.romanji@ == input,
                phrase.cursor() == at,
                at == old(phrase).cursor() + 1,
                0 < at <= input.len(),
                input[at - 1] == node.key,
                phrase.kana@ == old(phrase).kana@ + emitted(node@),
                node@.children == kana_models(node.next@),
                walk_any(node@.children, 0, input, at) == walk_any(node@.children, i as int, input, at),
            decreases node.next.len() - i,
        {
            assert(node@.children[i as int] == node.next@[i as int]@);
            let ghost below = walk(node.next@[i as int]@, input, at);
            if self.iterate_kana(&node.next[i], phrase) {
                assert(old(phrase).kana@ + (emitted(node@) + below->0.out) =~= (old(phrase).kana@
                    + emitted(node@)) + below->0.out);
                return true;
            }
            i += 1;
        }
        if node.value.is_some() || node.next.len() == 0 {
            true
        } else {
            phrase.len -= 1;
            false
        }
    }

    /// The kana for `romanji`.
    ///
    /// The input is read token by token. At each offset the roots are tried
    /// in their declared order and the first that matches is taken; where
    /// none matches, the character at the offset is copied as it is.
    pub fn convert(&self, romanji: &String) -> (kana: String)
        ensures
            kana@ == kana_of(self@, romanji@),
    {
        let mut phrase = Phrase::new(romanji);
        while !phrase.done()
            invariant
                phrase.wf(),
                phrase.romanji@ == romanji@,
                phrase.len == 0,
                phrase.kana@ + kana_from(self@, romanji@, phrase.offset as int) == kana_of(
                    self@,
                    romanji@,
                ),
            decreases phrase.count - phrase.offset,
        {
            proof {
                lemma_walk_any_bounds(self@, 0, romanji@, phrase.offset as int);
            }
            if self.convert_phrase(&mut phrase) {
                phrase.next();
            } else {
                phrase.skip();
            }
        }
        phrase.get_kana()
    }
}

} // verus!
