//! Every word of a given length over an alphabet, in odometer order.

use vstd::prelude::*;

verus! {

/// `base` to the power `exp`.
pub open spec fn power(base: nat, exp: nat) -> nat
    decreases exp,
{
    if exp == 0 {
        1
    } else {
        power(base, (exp - 1) as nat) * base
    }
}

/// How many words of length `length` the enumeration over an alphabet of
/// `size` characters yields: `size` to the power `length`, but none at all
/// for length 0.
pub open spec fn total(size: nat, length: nat) -> nat {
    if length == 0 {
        0
    } else {
        power(size, length)
    }
}

/// The number `k` written with `length` digits in base `base`, the most
/// significant digit first (`k` taken modulo `base` to the `length`).
pub open spec fn digits_of(k: nat, base: nat, length: nat) -> Seq<nat>
    decreases length,
{
    if length == 0 {
        Seq::empty()
    } else {
        digits_of(k / base, base, (length - 1) as nat).push(k % base)
    }
}

/// The `k`-th word of length `length` over `alphabet`, counting from 0: the
/// digits of `k` in the base of the alphabet's size, each replaced by the
/// alphabet's character of that rank.
pub open spec fn word_at(alphabet: Seq<char>, length: nat, k: nat) -> Seq<char> {
    Seq::new(length, |i: int| alphabet[digits_of(k, alphabet.len(), length)[i] as int])
}

/// The number that a run of digits in base `base` denotes, the most
/// significant digit first.
pub open spec fn value_of(digits: Seq<usize>, base: nat) -> nat
    decreases digits.len(),
{
    if digits.len() == 0 {
        0
    } else {
        value_of(digits.drop_last(), base) * base + digits.last() as nat
    }
}

/// A number has as many digits as were asked for, each below the base.
pub proof fn lemma_digits_of(k: nat, base: nat, length: nat)
    requires
        base > 0,
    ensures
        digits_of(k, base, length).len() == length,
        forall|i: int| 0 <= i < length ==> #[trigger] digits_of(k, base, length)[i] < base,
    decreases length,
{
    if length > 0 {
        lemma_digits_of(k / base, base, (length - 1) as nat);
        assert(k % base < base) by (nonlinear_arith)
            requires
                base > 0,
        ;
    }
}

/// A power of a positive base is positive.
pub proof fn lemma_power_positive(base: nat, exp: nat)
    requires
        base > 0,
    ensures
        power(base, exp) > 0,
    decreases exp,
{
    if exp > 0 {
        lemma_power_positive(base, (exp - 1) as nat);
        assert(power(base, (exp - 1) as nat) * base > 0) by (nonlinear_arith)
            requires
                power(base, (exp - 1) as nat) > 0,
                base > 0,
        ;
    }
}

/// Digits below the base denote a number below the base to the power of
/// their count, and that number's digits are they.
pub proof fn lemma_value_of(digits: Seq<usize>, base: nat)
    requires
        forall|i: int| 0 <= i < digits.len() ==> #[trigger] digits[i] < base,
    ensures
        value_of(digits, base) < power(base, digits.len()),
        digits_of(value_of(digits, base), base, digits.len()) == digits.map_values(
            |d: usize| d as nat,
        ),
    decreases digits.len(),
{
    let as_nats = digits.map_values(|d: usize| d as nat);
    if digits.len() == 0 {
        assert(digits_of(value_of(digits, base), base, 0) =~= as_nats);
    } else {
        let front = digits.drop_last();
        let last = digits.last() as nat;
        lemma_value_of(front, base);
        let v = value_of(front, base);
        let p = power(base, front.len());
        assert(v * base + last < p * base) by (nonlinear_arith)
            requires
                v < p,
                last < base,
        ;
        assert((v * base + last) / base == v && (v * base + last) % base == last) by {
            vstd::arithmetic::div_mod::lemma_fundamental_div_mod_converse(
                (v * base + last) as int,
                base as int,
                v as int,
                last as int,
            );
            assert(base * v == v * base) by (nonlinear_arith);
        }
        assert(digits_of(v * base + last, base, digits.len()) =~= as_nats) by {
            assert(front.map_values(|d: usize| d as nat) =~= as_nats.drop_last());
        }
    }
}

/// Adding one with carry: where two runs of digits agree before place `p`,
/// the second has one more at `p`, and after `p` the first has the highest
/// digit everywhere and the second has zeros, the second denotes the
/// successor of what the first denotes.
pub proof fn lemma_carry(before: Seq<usize>, after: Seq<usize>, base: nat, p: int)
    requires
        base > 0,
        before.len() == after.len(),
        0 <= p < before.len(),
        forall|i: int| 0 <= i < p ==> before[i] == after[i],
        after[p] == before[p] + 1,
        forall|i: int| p < i < before.len() ==> before[i] == base - 1 && after[i] == 0,
    ensures
        value_of(after, base) == value_of(before, base) + 1,
    decreases before.len(),
{
    let n = before.len() as int;
    if p == n - 1 {
        assert(before.drop_last() =~= after.drop_last());
    } else {
        lemma_carry(before.drop_last(), after.drop_last(), base, p);
        let v = value_of(before.drop_last(), base);
        assert((v + 1) * base == v * base + (base - 1) + 1) by (nonlinear_arith);
    }
}

/// The run of highest digits denotes the last number of its length.
pub proof fn lemma_all_highest(digits: Seq<usize>, base: nat)
    requires
        base > 0,
        forall|i: int| 0 <= i < digits.len() ==> digits[i] == base - 1,
    ensures
        value_of(digits, base) + 1 == power(base, digits.len()),
    decreases digits.len(),
{
    if digits.len() > 0 {
        lemma_all_highest(digits.drop_last(), base);
        let v = value_of(digits.drop_last(), base);
        assert((v + 1) * base == v * base + (base - 1) + 1) by (nonlinear_arith);
    }
}

/// Where an enumeration stands.
pub struct WordsView {
    /// The alphabet; a character's place in it is its rank.
    pub alphabet: Seq<char>,
    /// The length of every word.
    pub length: nat,
    /// How many words have been handed out.
    pub produced: nat,
}

impl WordsView {
    /// How many words the enumeration yields in all.
    pub open spec fn total(self) -> nat {
        total(self.alphabet.len(), self.length)
    }

    /// The enumeration has handed out every word.
    pub open spec fn exhausted(self) -> bool {
        self.produced >= self.total()
    }

    /// The word that comes next.
    pub open spec fn upcoming(self) -> Seq<char> {
        word_at(self.alphabet, self.length, self.produced)
    }

    /// The enumeration after the next word has been handed out.
    pub open spec fn advanced(self) -> WordsView {
        WordsView { produced: self.produced + 1, ..self }
    }

    /// The enumeration before any word has been handed out.
    pub open spec fn start(alphabet: Seq<char>, length: nat) -> WordsView {
        WordsView { alphabet, length, produced: 0 }
    }
}

/// A cursor over all words of one length over an alphabet. It hands them
/// out once, in odometer order: the rightmost character changes fastest.
pub struct ExhaustiveWordsIter<'a> {
    chars: &'a [char],
    current: Vec<usize>,
    length: usize,
    finished: bool,
}

impl<'a> View for ExhaustiveWordsIter<'a> {
    type V = WordsView;

    closed spec fn view(&self) -> WordsView {
        WordsView {
            alphabet: self.chars@,
            length: self.length as nat,
            produced: if self.finished {
                total(self.chars@.len(), self.length as nat)
            } else {
                value_of(self.current@, self.chars@.len())
            },
        }
    }
}

impl<'a> ExhaustiveWordsIter<'a> {
    /// The cursor's invariant: it holds one digit per character of a word,
    /// each the rank of a character of the alphabet, and it is finished
    /// from the start where there is no word to hand out.
    pub closed spec fn wf(&self) -> bool {
        &&& self.current@.len() == self.length
        &&& !self.finished ==> forall|i: int|
            0 <= i < self.current@.len() ==> #[trigger] self.current@[i] < self.chars@.len()
        &&& (self.length == 0 || self.chars@.len() == 0) ==> self.finished
    }

    /// A well-formed cursor has handed out no more words than there are.
    pub proof fn lemma_produced_bounded(&self)
        requires
            self.wf(),
        ensures
            self@.produced <= self@.total(),
    {
        if !self.finished {
            lemma_value_of(self.current@, self.chars@.len());
        }
    }

    /// A cursor that has handed out no word yet. For length 0, and over an
    /// empty alphabet, it hands out none at all.
    pub fn new(chars: &'a [char], length: usize) -> (it: Self)
        ensures
            it.wf(),
            it@ == WordsView::start(chars@, length as nat),
    {
        let mut current: Vec<usize> = Vec::new();
        let mut i: usize = 0;
        while i < length
            invariant
                i <= length,
                current@.len() == i,
                forall|j: int| 0 <= j < i ==> current@[j] == 0,
                value_of(current@, chars@.len()) == 0,
            decreases length - i,
        {
            let ghost before = current@;
            current.push(0);
            assert(current@.drop_last() =~= before);
            assert(value_of(before, chars@.len()) * chars@.len() + 0 == 0) by (nonlinear_arith)
                requires
                    value_of(before, chars@.len()) == 0,
            ;
            i += 1;
        }
        let finished = length == 0 || chars.len() == 0;
        proof {
            if length > 0 && chars@.len() == 0 {
                lemma_power_of_zero(length as nat);
            }
        }
        Self { chars, current, length, finished }
    }

    /// The word that the digits spell.
    fn spell(&self) -> (word: String)
        requires
            self.wf(),
            !self.finished,
        ensures
            word@ == Seq::new(
                self.length as nat,
                |i: int| self.chars@[self.current@[i] as int],
            ),
    {
        let mut word = String::new();
        let mut i: usize = 0;
        while i < self.current.len()
            invariant
                self.wf(),
                !self.finished,
                i <= self.current@.len(),
                word@.len() == i,
                forall|j: int| 0 <= j < i ==> word@[j] == self.chars@[self.current@[j] as int],
            decreases self.current@.len() - i,
        {
            word.push(self.chars[self.current[i]]);
            i += 1;
        }
        assert(word@ =~= Seq::new(
            self.length as nat,
            |i: int| self.chars@[self.current@[i] as int],
        ));
        word
    }

    /// Hands out the next word, or `None` once every word has been handed
    /// out.
    pub fn next(&mut self) -> (word: Option<String>)
        requires
            old(self).wf(),
        ensures
            final(self).wf(),
            old(self)@.exhausted() ==> word.is_none() && final(self)@ == old(self)@,
            !old(self)@.exhausted() ==> word.is_some() && word.unwrap()@ == old(self)@.upcoming()
                && final(self)@ == old(self)@.advanced(),
    {
        proof {
            self.lemma_produced_bounded();
        }
        if self.finished {
            return None;
        }
        let ghost base = self.chars@.len();
        let ghost before = self.current@;
        proof {
            lemma_value_of(before, base);
            lemma_power_positive(base, self.length as nat);
        }
        let res = self.spell();
        assert(res@ =~= old(self)@.upcoming());
        let mut i = self.length;
        while i > 0
            invariant
                self.chars == old(self).chars,
                self.length == old(self).length,
                !self.finished,
                !old(self).finished,
                res@ == old(self)@.upcoming(),
                base == self.chars@.len(),
                base > 0,
                before == old(self).current@,
                before.len() == self.length,
                self.length > 0,
                value_of(before, base) < power(base, before.len()),
                self.current@.len() == self.length,
                i <= self.length,
                forall|j: int| 0 <= j < before.len() ==> #[trigger] before[j] < base,
                forall|j: int| 0 <= j < i ==> #[trigger] self.current@[j] == before[j],
                forall|j: int|
                    i <= j < self.length ==> #[trigger] self.current@[j] == 0 && before[j] == base
                        - 1,
            decreases i,
        {
            i -= 1;
            assert(self.current@[i as int] == before[i as int]);
            assert(before[i as int] < base);
            let ghost mid = self.current@;
            if self.current[i] < self.chars.len() - 1 {
                self.current[i] += 1;
                proof {
                    let after = self.current@;
                    assert forall|j: int| 0 <= j < i implies before[j] == after[j] by {
                        assert(mid[j] == before[j]);
                    }
                    assert forall|j: int| i < j < before.len() implies before[j] == base - 1
                        && after[j] == 0 by {
                        assert(mid[j] == 0);
                    }
                    lemma_carry(before, after, base, i as int);
                    assert forall|j: int| 0 <= j < self.current@.len() implies #[trigger] self.current@[j]
                        < base by {
                        if j < i {
                            assert(self.current@[j] == before[j]);
                            assert(before[j] < base);
                        }
                    }
                }
                return Some(res);
            }
            self.current[i] = 0;
        }
        self.finished = true;
        proof {
            assert forall|j: int| 0 <= j < before.len() implies before[j] == base - 1 by {
                assert(self.current@[j] == 0);
            }
            lemma_all_highest(before, base);
        }
        Some(res)
    }
}

/// No power of 0 but the zeroth is positive.
pub proof fn lemma_power_of_zero(exp: nat)
    requires
        exp > 0,
    ensures
        power(0, exp) == 0,
{
    assert(power(0, (exp - 1) as nat) * 0 == 0) by (nonlinear_arith);
}

/// Gives a run of characters its enumeration of words.
pub trait GetExhaustiveWords<'a> {
    /// The characters, in order of rank.
    spec fn alphabet(&self) -> Seq<char>;

    /// A cursor over all words of length `n` over these characters.
    fn get_exhaustive_words(&'a self, n: usize) -> (it: ExhaustiveWordsIter<'a>)
        ensures
            it.wf(),
            it@ == WordsView::start(self.alphabet(), n as nat),
    ;
}

impl<'a> GetExhaustiveWords<'a> for [char] {
    open spec fn alphabet(&self) -> Seq<char> {
        self@
    }

    fn get_exhaustive_words(&'a self, n: usize) -> (it: ExhaustiveWordsIter<'a>) {
        ExhaustiveWordsIter::new(self, n)
    }
}

/// Every word has the length that was asked for.
pub proof fn lemma_word_length(alphabet: Seq<char>, length: nat, k: nat)
    ensures
        word_at(alphabet, length, k).len() == length,
{
}

/// Odometer order: of two numbers below the base to the power `length`, the
/// smaller has the smaller digit at the first place where their digits
/// differ, and such a place exists.
pub proof fn lemma_digits_ordered(j: nat, k: nat, base: nat, length: nat) -> (p: int)
    requires
        base > 0,
        j < k < power(base, length),
    ensures
        0 <= p < length,
        forall|q: int| 0 <= q < p ==> digits_of(j, base, length)[q] == digits_of(k, base, length)[q],
        digits_of(j, base, length)[p] < digits_of(k, base, length)[p],
    decreases length,
{
    assert(length > 0);
    let shorter = (length - 1) as nat;
    lemma_digits_of(j / base, base, shorter);
    lemma_digits_of(k / base, base, shorter);
    assert(j / base <= k / base) by {
        vstd::arithmetic::div_mod::lemma_div_is_ordered(j as int, k as int, base as int);
    }
    assert(k / base < power(base, shorter)) by {
        vstd::arithmetic::div_mod::lemma_fundamental_div_mod(k as int, base as int);
        let q = k / base;
        let r = k % base;
        let top = power(base, shorter);
        assert(q < top) by (nonlinear_arith)
            requires
                base * q + r < top * base,
                0 <= r,
                base > 0,
        ;
    }
    if j / base < k / base {
        let p = lemma_digits_ordered(j / base, k / base, base, shorter);
        p
    } else {
        assert(j % base < k % base) by {
            vstd::arithmetic::div_mod::lemma_fundamental_div_mod(j as int, base as int);
            vstd::arithmetic::div_mod::lemma_fundamental_div_mod(k as int, base as int);
        }
        length - 1
    }
}

/// The words come in the order of the alphabet: of two words of the
/// enumeration, the earlier has the character of lower rank at the first
/// place where they differ in rank, and such a place exists.
pub proof fn lemma_words_ordered(alphabet: Seq<char>, length: nat, j: nat, k: nat) -> (p: int)
    requires
        j < k < total(alphabet.len(), length),
    ensures
        0 <= p < length,
        forall|q: int|
            0 <= q < p ==> word_at(alphabet, length, j)[q] == word_at(alphabet, length, k)[q],
        digits_of(j, alphabet.len(), length)[p] < digits_of(k, alphabet.len(), length)[p]
            < alphabet.len(),
        word_at(alphabet, length, j)[p] == alphabet[digits_of(j, alphabet.len(), length)[p] as int],
        word_at(alphabet, length, k)[p] == alphabet[digits_of(k, alphabet.len(), length)[p] as int],
{
    let base = alphabet.len();
    assert(length > 0);
    if base == 0 {
        lemma_power_of_zero(length);
    }
    lemma_digits_of(j, base, length);
    lemma_digits_of(k, base, length);
    lemma_digits_ordered(j, k, base, length)
}

/// Over an alphabet of distinct characters no word comes twice.
pub proof fn lemma_words_distinct(alphabet: Seq<char>, length: nat, j: nat, k: nat)
    requires
        alphabet.no_duplicates(),
        j < total(alphabet.len(), length),
        k < total(alphabet.len(), length),
        j != k,
    ensures
        word_at(alphabet, length, j) != word_at(alphabet, length, k),
{
    if j < k {
        let p = lemma_words_ordered(alphabet, length, j, k);
        assert(word_at(alphabet, length, j)[p] != word_at(alphabet, length, k)[p]);
    } else {
        let p = lemma_words_ordered(alphabet, length, k, j);
        assert(word_at(alphabet, length, j)[p] != word_at(alphabet, length, k)[p]);
    }
}

/// The enumeration after `n` words have been handed out.
pub open spec fn after_words(start: WordsView, n: nat) -> WordsView
    decreases n,
{
    if n == 0 {
        start
    } else {
        after_words(start, (n - 1) as nat).advanced()
    }
}

/// Counting the words: from its start an enumeration hands out the words
/// numbered 0, 1, 2, ... in turn, is exhausted after as many as its alphabet's
/// size to the power of its length, and not before; for length 0 it is
/// exhausted from the start.
pub proof fn lemma_word_count(alphabet: Seq<char>, length: nat, n: nat)
    ensures
        after_words(WordsView::start(alphabet, length), n).alphabet == alphabet,
        after_words(WordsView::start(alphabet, length), n).length == length,
        after_words(WordsView::start(alphabet, length), n).produced == n,
        after_words(WordsView::start(alphabet, length), n).upcoming() == word_at(alphabet, length, n),
        after_words(WordsView::start(alphabet, length), n).exhausted() <==> n >= total(
            alphabet.len(),
            length,
        ),
        length == 0 ==> WordsView::start(alphabet, length).exhausted(),
        length > 0 ==> total(alphabet.len(), length) == power(alphabet.len(), length),
    decreases n,
{
    if n > 0 {
        lemma_word_count(alphabet, length, (n - 1) as nat);
    }
}

} // verus!
