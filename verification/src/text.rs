//! Work on `String` values character by character: editing, cutting,
//! comparing, and reading numbers.

use vstd::prelude::*;

verus! {

/// Appends `c` to `s`.
///
/// Trusted: `String::push` adds the given character at the end of the string
/// and leaves the characters before it as they were.
#[verifier::external_body]
pub(crate) fn string_push(s: &mut String, c: char)
    ensures
        final(s)@ == old(s)@.push(c),
{
    s.push(c)
}

/// Removes the last character of `s` and returns it.
///
/// Trusted: `String::pop` removes the last character and returns it, or
/// returns `None` and leaves the string alone when it is empty.
#[verifier::external_body]
pub(crate) fn string_pop(s: &mut String) -> (last: Option<char>)
    ensures
        old(s)@.len() == 0 ==> last is None && final(s)@ == old(s)@,
        old(s)@.len() > 0 ==> last == Some(old(s)@.last()) && final(s)@ == old(s)@.drop_last(),
{
    s.pop()
}

/// The number of characters in `s`.
pub(crate) fn char_count(s: &String) -> (count: usize)
    ensures
        count == s@.len(),
{
    s.as_str().unicode_len()
}

/// The characters `from .. to` of `s`, as a string of their own.
pub(crate) fn substring(s: &String, from: usize, to: usize) -> (part: String)
    requires
        from <= to <= s@.len(),
    ensures
        part@ == s@.subrange(from as int, to as int),
{
    String::from_str(s.as_str().substring_char(from, to))
}

/// `s` with the characters `from .. to` replaced by the single character
/// `with`.
pub(crate) fn replace_chars(s: &String, from: usize, to: usize, with: char) -> (replaced: String)
    requires
        from <= to <= s@.len(),
    ensures
        replaced@ == s@.subrange(0, from as int).push(with) + s@.subrange(
            to as int,
            s@.len() as int,
        ),
{
    let count = char_count(s);
    let mut replaced = String::from_str(s.as_str().substring_char(0, from));
    string_push(&mut replaced, with);
    replaced.append(s.as_str().substring_char(to, count));
    replaced
}

/// Whether `a` and `b` hold the same characters.
pub(crate) fn same_text(a: &String, b: &str) -> (same: bool)
    ensures
        same == (a@ == b@),
{
    let other = String::from_str(b);
    *a == other
}

/// Whether `c` is one of the digits `0` to `9`.
pub open spec fn is_digit(c: char) -> bool {
    '0' <= c <= '9'
}

/// The number that the digits of `digits` spell in base ten; the characters
/// are taken to be digits.
pub open spec fn decimal_value(digits: Seq<char>) -> nat
    decreases digits.len(),
{
    if digits.len() == 0 {
        0
    } else {
        decimal_value(digits.drop_last()) * 10 + (digits.last() as nat - '0' as nat) as nat
    }
}

/// The digits of a number written as `text`: what follows the `+` sign, if
/// there is one.
pub open spec fn digits_of(text: Seq<char>) -> Seq<char> {
    if text.len() > 0 && text[0] == '+' {
        text.drop_first()
    } else {
        text
    }
}

/// The number that `text` spells, if it spells one: an optional `+` sign
/// followed by one or more digits and nothing else.
pub open spec fn number_of(text: Seq<char>) -> Option<nat> {
    if digits_of(text).len() > 0 && forall|i: int|
        0 <= i < digits_of(text).len() ==> is_digit(#[trigger] digits_of(text)[i]) {
        Some(decimal_value(digits_of(text)))
    } else {
        None
    }
}

/// The index that `text` spells, if it spells a number that a `usize` can
/// hold.
pub open spec fn index_of(text: Seq<char>) -> Option<usize> {
    match number_of(text) {
        Some(value) => if value <= usize::MAX {
            Some(value as usize)
        } else {
            None
        },
        None => None,
    }
}

/// A number is at least the number that any of its leading digits spell.
pub proof fn lemma_decimal_grows(digits: Seq<char>, upto: int)
    requires
        0 <= upto <= digits.len(),
    ensures
        decimal_value(digits.subrange(0, upto)) <= decimal_value(digits),
    decreases digits.len() - upto,
{
    if upto < digits.len() {
        lemma_decimal_grows(digits, upto + 1);
        assert(digits.subrange(0, upto + 1).drop_last() =~= digits.subrange(0, upto));
    } else {
        assert(digits.subrange(0, upto) =~= digits);
    }
}

/// Reads `text` as an index.
pub(crate) fn parse_index(text: &String) -> (index: Option<usize>)
    ensures
        index == index_of(text@),
{
    let count = char_count(text);
    let mut at: usize = 0;
    if count > 0 && text.as_str().get_char(0) == '+' {
        at = 1;
    }
    if at == count {
        return None;
    }
    let ghost digits = digits_of(text@);
    let start = at;
    let mut value: usize = 0;
    assert(digits.subrange(0, 0) =~= Seq::<char>::empty());
    while at < count
        invariant
            start <= at <= count,
            start <= 1,
            count == text@.len(),
            digits == digits_of(text@),
            digits.len() == count - start,
            forall|i: int| 0 <= i < digits.len() ==> digits[i] == text@[start + i],
            forall|i: int| 0 <= i < at - start ==> is_digit(#[trigger] digits[i]),
            value == decimal_value(digits.subrange(0, at - start)),
        decreases count - at,
    {
        let c = text.as_str().get_char(at);
        if !('0' <= c && c <= '9') {
            assert(!is_digit(digits[at - start]));
            return None;
        }
        let digit = (c as u32 - '0' as u32) as usize;
        proof {
            assert(digits.subrange(0, at - start + 1).drop_last() =~= digits.subrange(
                0,
                at - start,
            ));
            lemma_decimal_grows(digits, at - start + 1);
        }
        if value > (usize::MAX - digit) / 10 {
            return None;
        }
        value = value * 10 + digit;
        at += 1;
    }
    assert(digits.subrange(0, digits.len() as int) =~= digits);
    Some(value)
}

} // verus!
