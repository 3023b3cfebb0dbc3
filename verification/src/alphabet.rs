//! The alphabets that a user types: which characters may stand in one, and
//! which characters of an input word belong to one.

use crate::cell::BLANK_CHAR;
use std::collections::HashSet;
use vstd::prelude::*;

verus! {

/// The characters of `typed` that may stand in an alphabet beside the
/// alphabet `other`: in the order typed, each at its first occurrence only,
/// without the reserved glyph and without the characters of `other`.
pub open spec fn sanitized(typed: Seq<char>, other: Seq<char>) -> Seq<char>
    decreases typed.len(),
{
    if typed.len() == 0 {
        Seq::empty()
    } else {
        let front = sanitized(typed.drop_last(), other);
        let ch = typed.last();
        if ch == BLANK_CHAR || other.contains(ch) || typed.drop_last().contains(ch) {
            front
        } else {
            front.push(ch)
        }
    }
}

/// The characters of `typed` that belong to `alphabet`, in the order typed.
pub open spec fn within(typed: Seq<char>, alphabet: Seq<char>) -> Seq<char>
    decreases typed.len(),
{
    if typed.len() == 0 {
        Seq::empty()
    } else {
        let front = within(typed.drop_last(), alphabet);
        if alphabet.contains(typed.last()) {
            front.push(typed.last())
        } else {
            front
        }
    }
}

/// A sanitized alphabet holds no character twice, not the reserved glyph,
/// and no character of the other alphabet; and it holds exactly the typed
/// characters that are neither.
pub proof fn lemma_sanitized(typed: Seq<char>, other: Seq<char>)
    ensures
        sanitized(typed, other).no_duplicates(),
        !sanitized(typed, other).contains(BLANK_CHAR),
        forall|ch: char|
            sanitized(typed, other).contains(ch) <==> typed.contains(ch) && ch != BLANK_CHAR
                && !other.contains(ch),
    decreases typed.len(),
{
    let result = sanitized(typed, other);
    if typed.len() > 0 {
        let front_typed = typed.drop_last();
        let front = sanitized(front_typed, other);
        let last = typed.last();
        lemma_sanitized(front_typed, other);
        assert forall|ch: char| typed.contains(ch) <==> (front_typed.contains(ch) || ch == last) by {
            if typed.contains(ch) {
                let i = choose|i: int| 0 <= i < typed.len() && typed[i] == ch;
                if i < typed.len() - 1 {
                    assert(front_typed[i] == ch);
                }
            }
            if front_typed.contains(ch) {
                let i = choose|i: int| 0 <= i < front_typed.len() && front_typed[i] == ch;
                assert(typed[i] == ch);
            }
            if ch == last {
                assert(typed[typed.len() - 1] == ch);
            }
        }
        if last == BLANK_CHAR || other.contains(last) || front_typed.contains(last) {
            assert(result == front);
        } else {
            assert(result == front.push(last));
            assert forall|ch: char| result.contains(ch) <==> (front.contains(ch) || ch == last) by {
                if result.contains(ch) {
                    let i = choose|i: int| 0 <= i < result.len() && result[i] == ch;
                    if i < front.len() {
                        assert(front[i] == ch);
                    }
                }
                if front.contains(ch) {
                    let i = choose|i: int| 0 <= i < front.len() && front[i] == ch;
                    assert(result[i] == ch);
                }
                if ch == last {
                    assert(result[result.len() - 1] == ch);
                }
            }
            assert(!front.contains(last));
            assert forall|i: int, j: int| 0 <= i < result.len() && 0 <= j < result.len() && i
                != j implies result[i] != result[j] by {
                if i < front.len() && j < front.len() {
                    assert(front[i] != front[j]);
                } else if i < front.len() {
                    assert(front.contains(front[i]));
                } else {
                    assert(front.contains(front[j]));
                }
            }
        }
    } else {
        assert(forall|ch: char| !typed.contains(ch));
        assert(forall|ch: char| !result.contains(ch));
    }
}

/// Whether a run of characters holds `ch`.
pub fn holds(chars: &Vec<char>, ch: char) -> (found: bool)
    ensures
        found == chars@.contains(ch),
{
    let mut i: usize = 0;
    while i < chars.len()
        invariant
            i <= chars@.len(),
            forall|j: int| 0 <= j < i ==> chars@[j] != ch,
        decreases chars@.len() - i,
    {
        if chars[i] == ch {
            return true;
        }
        i += 1;
    }
    false
}

/// The characters of a text, in order.
pub fn chars_of(text: &str) -> (chars: Vec<char>)
    ensures
        chars@ == text@,
{
    broadcast use vstd::string::group_string_axioms;

    let mut chars: Vec<char> = Vec::new();
    for ch in it: text.chars()
        invariant
            it.seq() == text@,
            chars@ == text@.take(it.index() as int),
    {
        chars.push(ch);
        assert(text@.take(it.index() + 1) =~= text@.take(it.index() as int).push(ch));
    }
    assert(text@.take(text@.len() as int) =~= text@);
    chars
}

/// What is left of a typed alphabet once it is made fit to stand beside the
/// alphabet `other`: repeated characters go, and so do the reserved glyph and
/// the characters of `other`.
pub fn sanitize_alphabet(typed: &str, other: &str) -> (alphabet: String)
    ensures
        alphabet@ == sanitized(typed@, other@),
{
    broadcast use {vstd::string::group_string_axioms, vstd::std_specs::hash::group_hash_axioms};

    let mut seen: HashSet<u32> = HashSet::new();
    for ch in it: other.chars()
        invariant
            it.seq() == other@,
            forall|c: char|
                seen@.contains(c as u32) <==> other@.take(it.index() as int).contains(c),
    {
        let ghost done = other@.take(it.index() as int);
        let ghost next = other@.take(it.index() + 1);
        assert(next =~= done.push(ch));
        seen.insert(ch as u32);
        assert forall|c: char| seen@.contains(c as u32) <==> next.contains(c) by {
            lemma_push_contains(done, ch, c);
            lemma_codes_differ(c, ch);
        }
    }
    assert(other@.take(other@.len() as int) =~= other@);
    assert forall|c: char| seen@.contains(c as u32) <==> other@.contains(c) || typed@.take(
        0,
    ).contains(c) by {
        assert(typed@.take(0).len() == 0);
    }
    let mut alphabet = String::new();
    for ch in it: typed.chars()
        invariant
            it.seq() == typed@,
            forall|c: char|
                seen@.contains(c as u32) <==> other@.contains(c) || typed@.take(
                    it.index() as int,
                ).contains(c),
            alphabet@ == sanitized(typed@.take(it.index() as int), other@),
    {
        let ghost done = typed@.take(it.index() as int);
        let ghost next = typed@.take(it.index() + 1);
        assert(next =~= done.push(ch));
        assert(next.drop_last() =~= done);
        let ghost known = seen@;
        let fresh = seen.insert(ch as u32);
        assert(fresh == !(other@.contains(ch) || done.contains(ch))) by {
            assert(known.contains(ch as u32) <==> other@.contains(ch) || done.contains(ch));
        }
        if fresh && ch != BLANK_CHAR {
            alphabet.push(ch);
        }
        assert forall|c: char| seen@.contains(c as u32) <==> other@.contains(c) || next.contains(
            c,
        ) by {
            lemma_push_contains(done, ch, c);
            lemma_codes_differ(c, ch);
        }
    }
    assert(typed@.take(typed@.len() as int) =~= typed@);
    alphabet
}

/// Characters with the same code are the same character.
proof fn lemma_codes_differ(a: char, b: char)
    ensures
        a as u32 == b as u32 <==> a == b,
{
    vstd::utf8::char_u32_cast(a, a as u32);
    vstd::utf8::char_u32_cast(b, b as u32);
}

/// A run with one more character holds what it held, and that character.
proof fn lemma_push_contains(run: Seq<char>, last: char, ch: char)
    ensures
        run.push(last).contains(ch) <==> run.contains(ch) || ch == last,
{
    let longer = run.push(last);
    if longer.contains(ch) {
        let i = choose|i: int| 0 <= i < longer.len() && longer[i] == ch;
        if i < run.len() {
            assert(run[i] == ch);
        }
    }
    if run.contains(ch) {
        let i = choose|i: int| 0 <= i < run.len() && run[i] == ch;
        assert(longer[i] == ch);
    }
    if ch == last {
        assert(longer[run.len() as int] == ch);
    }
}

/// What is left of a typed input word once every character that is not in
/// `alphabet` is dropped.
pub fn filter_input(typed: &str, alphabet: &str) -> (input: String)
    ensures
        input@ == within(typed@, alphabet@),
{
    let typed_chars = chars_of(typed);
    let alphabet_chars = chars_of(alphabet);
    let mut input = String::new();
    let mut i: usize = 0;
    while i < typed_chars.len()
        invariant
            typed_chars@ == typed@,
            alphabet_chars@ == alphabet@,
            i <= typed_chars@.len(),
            input@ == within(typed@.take(i as int), alphabet@),
        decreases typed_chars@.len() - i,
    {
        let ch = typed_chars[i];
        let ghost next = typed@.take(i + 1);
        assert(next.drop_last() =~= typed@.take(i as int));
        assert(next.last() == ch);
        if holds(&alphabet_chars, ch) {
            input.push(ch);
        }
        i += 1;
    }
    assert(typed@.take(typed@.len() as int) =~= typed@);
    input
}

/// A filtered input holds characters of the alphabet only, and is no longer
/// than what was typed.
pub proof fn lemma_within(typed: Seq<char>, alphabet: Seq<char>)
    ensures
        within(typed, alphabet).len() <= typed.len(),
        forall|i: int|
            0 <= i < within(typed, alphabet).len() ==> alphabet.contains(
                #[trigger] within(typed, alphabet)[i],
            ),
    decreases typed.len(),
{
    if typed.len() > 0 {
        lemma_within(typed.drop_last(), alphabet);
    }
}

} // verus!
