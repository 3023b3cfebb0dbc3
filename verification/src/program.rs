//! The transition table: for each state, what to do on each tuple of cells
//! under the heads.

use crate::cell::Cell;
use crate::error::Error;
use crate::rules::{Direction, RuleView};
use vstd::prelude::*;

verus! {

/// What a rule does once it applies.
pub struct Action {
    /// The state that the machine goes to.
    pub state: Seq<char>,
    /// The cells that it writes, one per tape.
    pub cells: Seq<Cell>,
    /// The moves that its heads make, one per tape.
    pub directions: Seq<Direction>,
}

/// The mathematical content of a state's rules: from the tuple of cells
/// under the heads to what is done.
pub type InstructionsView = Map<Seq<Cell>, Action>;

/// The mathematical content of a program: from a state to its rules.
pub type ProgramView = Map<Seq<char>, InstructionsView>;

/// The content of a stored action.
pub open spec fn action_of(stored: (String, Vec<Cell>, Vec<Direction>)) -> Action {
    Action { state: stored.0@, cells: stored.1@, directions: stored.2@ }
}

/// Whether two tuples of cells are the same.
pub fn same_cells(a: &Vec<Cell>, b: &Vec<Cell>) -> (same: bool)
    ensures
        same == (a@ == b@),
{
    if a.len() != b.len() {
        return false;
    }
    let mut i: usize = 0;
    while i < a.len()
        invariant
            a.len() == b.len(),
            i <= a.len(),
            forall|j: int| 0 <= j < i ==> a@[j] == b@[j],
        decreases a.len() - i,
    {
        if a[i] != b[i] {
            return false;
        }
        i += 1;
    }
    assert(a@ =~= b@);
    true
}

/// The rules of one state, each keyed by the tuple of cells that it applies
/// to. No two rules have the same key, and a rule stays where it was first
/// put.
pub struct Instructions {
    entries: Vec<(Vec<Cell>, (String, Vec<Cell>, Vec<Direction>))>,
}

impl View for Instructions {
    type V = InstructionsView;

    closed spec fn view(&self) -> InstructionsView {
        Map::new(
            |key: Seq<Cell>| self.position(key) < self.entries@.len(),
            |key: Seq<Cell>| action_of(self.entries@[self.position(key)].1),
        )
    }
}

impl Instructions {
    /// The first place at which `key` is stored, or the number of rules if
    /// it is stored nowhere.
    spec fn position(&self, key: Seq<Cell>) -> int {
        first_with_key(self.entries@, key, 0)
    }

    /// No key is stored twice.
    pub closed spec fn wf(&self) -> bool {
        forall|i: int, j: int|
            0 <= i < j < self.entries@.len() ==> (#[trigger] self.entries@[i]).0@
                != (#[trigger] self.entries@[j]).0@
    }

    /// The number of rules stored.
    pub closed spec fn count(&self) -> nat {
        self.entries@.len()
    }

    /// The key of the rule stored at place `i`.
    pub closed spec fn key_at(&self, i: int) -> Seq<Cell> {
        self.entries@[i].0@
    }

    /// The places hold the map's keys, each once, with its action.
    pub proof fn lemma_places(&self)
        requires
            self.wf(),
        ensures
            forall|i: int|
                0 <= i < self.count() ==> self@.contains_key(#[trigger] self.key_at(i)),
            forall|key: Seq<Cell>| #[trigger]
                self@.contains_key(key) ==> exists|i: int|
                    0 <= i < self.count() && self.key_at(i) == key,
            forall|i: int, j: int|
                0 <= i < j < self.count() ==> #[trigger] self.key_at(i) != #[trigger] self.key_at(j),
    {
        assert forall|i: int| 0 <= i < self.count() implies self@.contains_key(
            #[trigger] self.key_at(i),
        ) by {
            lemma_first_with_key(self.entries@, self.key_at(i), 0);
        }
        assert forall|key: Seq<Cell>| #[trigger] self@.contains_key(key) implies exists|i: int|
            0 <= i < self.count() && self.key_at(i) == key by {
            lemma_first_with_key(self.entries@, key, 0);
            assert(self.key_at(self.position(key)) == key);
        }
    }

    /// The keys stored at the first `k` places.
    spec fn keys_before(&self, k: int) -> Set<Seq<Cell>> {
        Set::new(|key: Seq<Cell>| exists|i: int| 0 <= i < k && self.entries@[i].0@ == key)
    }

    /// The first `k` places hold `k` keys.
    proof fn lemma_keys_before(&self, k: int)
        requires
            self.wf(),
            0 <= k <= self.entries@.len(),
        ensures
            self.keys_before(k).finite(),
            self.keys_before(k).len() == k,
        decreases k,
    {
        if k == 0 {
            assert(self.keys_before(0) =~= Set::<Seq<Cell>>::empty());
        } else {
            self.lemma_keys_before(k - 1);
            let key = self.entries@[k - 1].0@;
            let fewer = self.keys_before(k - 1);
            assert(!fewer.contains(key)) by {
                if fewer.contains(key) {
                    let i = choose|i: int| 0 <= i < k - 1 && self.entries@[i].0@ == key;
                    assert(self.entries@[i].0@ != self.entries@[k - 1].0@);
                }
            }
            assert(self.keys_before(k) =~= fewer.insert(key)) by {
                assert forall|other: Seq<Cell>| self.keys_before(k).contains(other) implies fewer.insert(
                    key,
                ).contains(other) by {
                    let i = choose|i: int| 0 <= i < k && self.entries@[i].0@ == other;
                    if i < k - 1 {
                        assert(fewer.contains(other));
                    }
                }
                assert forall|other: Seq<Cell>| fewer.insert(key).contains(
                    other,
                ) implies self.keys_before(k).contains(other) by {
                    if other == key {
                        assert(self.entries@[k - 1].0@ == other);
                    } else {
                        let i = choose|i: int| 0 <= i < k - 1 && self.entries@[i].0@ == other;
                        assert(self.entries@[i].0@ == other);
                    }
                }
            }
        }
    }

    /// The map has as many keys as there are rules stored.
    pub proof fn lemma_count(&self)
        requires
            self.wf(),
        ensures
            self@.dom().finite(),
            self@.len() == self.count(),
    {
        let n = self.entries@.len() as int;
        self.lemma_keys_before(n);
        assert(self@.dom() =~= self.keys_before(n)) by {
            assert forall|key: Seq<Cell>| self@.dom().contains(key) implies self.keys_before(
                n,
            ).contains(key) by {
                lemma_first_with_key(self.entries@, key, 0);
                assert(self.entries@[self.position(key)].0@ == key);
            }
            assert forall|key: Seq<Cell>| self.keys_before(n).contains(
                key,
            ) implies self@.dom().contains(key) by {
                lemma_first_with_key(self.entries@, key, 0);
            }
        }
    }

    /// No rules.
    pub fn new() -> (ins: Instructions)
        ensures
            ins.wf(),
            ins@ == Map::<Seq<Cell>, Action>::empty(),
    {
        let ins = Instructions { entries: Vec::new() };
        assert(ins@ =~= Map::<Seq<Cell>, Action>::empty());
        ins
    }

    /// The number of rules.
    pub fn len(&self) -> (n: usize)
        requires
            self.wf(),
        ensures
            n == self.count(),
            self@.dom().finite(),
            n == self@.len(),
    {
        proof {
            self.lemma_count();
        }
        self.entries.len()
    }

    /// The place at which `key` is stored, if it is.
    fn find(&self, key: &Vec<Cell>) -> (place: usize)
        ensures
            place == self.position(key@),
            place <= self.entries@.len(),
    {
        let mut i: usize = 0;
        while i < self.entries.len()
            invariant
                i <= self.entries@.len(),
                first_with_key(self.entries@, key@, i as int) == self.position(key@),
            decreases self.entries@.len() - i,
        {
            if same_cells(&self.entries[i].0, key) {
                return i;
            }
            i += 1;
        }
        i
    }

    /// The action of the rule keyed by `key`, if there is one.
    pub fn get(&self, key: &Vec<Cell>) -> (found: Option<&(String, Vec<Cell>, Vec<Direction>)>)
        ensures
            found.is_some() == self@.contains_key(key@),
            found.is_some() ==> action_of(*found.unwrap()) == self@[key@],
    {
        let place = self.find(key);
        if place < self.entries.len() {
            Some(&self.entries[place].1)
        } else {
            None
        }
    }

    /// Stores a rule. A rule already stored under the same key is replaced,
    /// and its action is returned.
    pub fn insert(&mut self, key: Vec<Cell>, action: (String, Vec<Cell>, Vec<Direction>)) -> (replaced:
        Option<(String, Vec<Cell>, Vec<Direction>)>)
        requires
            old(self).wf(),
        ensures
            final(self).wf(),
            final(self)@ == old(self)@.insert(key@, action_of(action)),
            replaced.is_some() == old(self)@.contains_key(key@),
            replaced.is_some() ==> action_of(replaced.unwrap()) == old(self)@[key@],
    {
        let place = self.find(&key);
        let ghost before = self.entries@;
        proof {
            lemma_first_with_key(before, key@, 0);
        }
        if place < self.entries.len() {
            let mut swapped = action;
            std::mem::swap(&mut self.entries[place].1, &mut swapped);
            proof {
                let after = self.entries@;
                assert forall|k: Seq<Cell>| first_with_key(after, k, 0) == first_with_key(
                    before,
                    k,
                    0,
                ) by {
                    lemma_first_with_key_same_keys(before, after, k, 0);
                }
                assert forall|k: Seq<Cell>| #[trigger] self@.contains_key(k) implies self@[k] == old(
                    self,
                )@.insert(key@, action_of(action))[k] by {
                    lemma_first_with_key(before, k, 0);
                }
                assert(self@ =~= old(self)@.insert(key@, action_of(action)));
            }
            Some(swapped)
        } else {
            self.entries.push((key, action));
            proof {
                let after = self.entries@;
                assert forall|k: Seq<Cell>| first_with_key(after, k, 0) == (if k == key@ {
                    before.len() as int
                } else if first_with_key(before, k, 0) < before.len() {
                    first_with_key(before, k, 0)
                } else {
                    after.len() as int
                }) by {
                    lemma_first_with_key_push(before, (key, action), k, 0);
                    lemma_first_with_key(before, k, 0);
                }
                assert forall|k: Seq<Cell>| #[trigger] self@.contains_key(k) implies self@[k] == old(
                    self,
                )@.insert(key@, action_of(action))[k] by {
                    lemma_first_with_key(before, k, 0);
                    lemma_first_with_key(after, k, 0);
                }
                assert(self@ =~= old(self)@.insert(key@, action_of(action)));
            }
            None
        }
    }
}

/// From place `from` on, the first place of `entries` that holds `key`, or
/// the length of `entries` if none does.
pub open spec fn first_with_key(
    entries: Seq<(Vec<Cell>, (String, Vec<Cell>, Vec<Direction>))>,
    key: Seq<Cell>,
    from: int,
) -> int
    decreases entries.len() - from,
{
    if from < 0 || from >= entries.len() {
        entries.len() as int
    } else if entries[from].0@ == key {
        from
    } else {
        first_with_key(entries, key, from + 1)
    }
}

/// `first_with_key` finds a place that holds the key and passes over places
/// that do not.
pub proof fn lemma_first_with_key(
    entries: Seq<(Vec<Cell>, (String, Vec<Cell>, Vec<Direction>))>,
    key: Seq<Cell>,
    from: int,
)
    requires
        0 <= from <= entries.len(),
    ensures
        from <= first_with_key(entries, key, from) <= entries.len(),
        first_with_key(entries, key, from) < entries.len() ==> entries[first_with_key(
            entries,
            key,
            from,
        )].0@ == key,
        forall|i: int| from <= i < first_with_key(entries, key, from) ==> entries[i].0@ != key,
    decreases entries.len() - from,
{
    if from < entries.len() && entries[from].0@ != key {
        lemma_first_with_key(entries, key, from + 1);
    }
}

/// Where two runs of entries hold the same keys, a key is found at the same
/// place in both.
proof fn lemma_first_with_key_same_keys(
    a: Seq<(Vec<Cell>, (String, Vec<Cell>, Vec<Direction>))>,
    b: Seq<(Vec<Cell>, (String, Vec<Cell>, Vec<Direction>))>,
    key: Seq<Cell>,
    from: int,
)
    requires
        0 <= from <= a.len(),
        a.len() == b.len(),
        forall|i: int| 0 <= i < a.len() ==> a[i].0@ == b[i].0@,
    ensures
        first_with_key(a, key, from) == first_with_key(b, key, from),
    decreases a.len() - from,
{
    if from < a.len() && a[from].0@ != key {
        lemma_first_with_key_same_keys(a, b, key, from + 1);
    }
}

/// How a new last entry changes where a key is found.
proof fn lemma_first_with_key_push(
    a: Seq<(Vec<Cell>, (String, Vec<Cell>, Vec<Direction>))>,
    entry: (Vec<Cell>, (String, Vec<Cell>, Vec<Direction>)),
    key: Seq<Cell>,
    from: int,
)
    requires
        0 <= from <= a.len(),
    ensures
        first_with_key(a, key, from) < a.len() ==> first_with_key(a.push(entry), key, from)
            == first_with_key(a, key, from),
        first_with_key(a, key, from) >= a.len() && entry.0@ == key ==> first_with_key(
            a.push(entry),
            key,
            from,
        ) == a.len(),
        first_with_key(a, key, from) >= a.len() && entry.0@ != key ==> first_with_key(
            a.push(entry),
            key,
            from,
        ) == a.len() + 1,
    decreases a.len() - from,
{
    let b = a.push(entry);
    if from < a.len() {
        assert(b[from] == a[from]);
        if a[from].0@ != key {
            lemma_first_with_key_push(a, entry, key, from + 1);
        }
    } else {
        assert(b[from] == entry);
        assert(first_with_key(b, key, from + 1) == b.len());
    }
}

/// Every rule of `ins` is keyed by a tuple of `n` cells.
pub open spec fn keys_fit(ins: InstructionsView, n: nat) -> bool {
    forall|key: Seq<Cell>| #[trigger] ins.contains_key(key) ==> key.len() == n
}

/// Every rule of `ins` writes `n` cells and makes `n` moves.
pub open spec fn actions_fit(ins: InstructionsView, n: nat) -> bool {
    forall|key: Seq<Cell>| #[trigger]
        ins.contains_key(key) ==> ins[key].cells.len() == n && ins[key].directions.len() == n
}

/// The program holds a rule.
pub open spec fn has_rule(program: ProgramView) -> bool {
    exists|state: Seq<char>, key: Seq<Cell>|
        program.contains_key(state) && #[trigger] program[state].contains_key(key)
}

/// Every rule of the program is keyed by a tuple of `n` cells.
pub open spec fn all_keys_fit(program: ProgramView, n: nat) -> bool {
    forall|state: Seq<char>| #[trigger] program.contains_key(state) ==> keys_fit(program[state], n)
}

/// Every rule of the program writes `n` cells and makes `n` moves.
pub open spec fn all_actions_fit(program: ProgramView, n: nat) -> bool {
    forall|state: Seq<char>| #[trigger]
        program.contains_key(state) ==> actions_fit(program[state], n)
}

/// Why a program cannot drive a machine of `n` tapes, or `None` if it can:
/// it holds no rule; a rule is keyed by a tuple of another length than `n`;
/// a rule writes or moves on another number of tapes than `n`; or `n` is 0.
pub open spec fn refusal(program: ProgramView, n: nat) -> Option<Error> {
    if !has_rule(program) {
        Some(Error::NoInstructions)
    } else if !all_keys_fit(program, n) {
        Some(Error::TapeCountMismatch)
    } else if !all_actions_fit(program, n) {
        Some(Error::InvalidInstructionLength)
    } else if n == 0 {
        Some(Error::ZeroLengthKey)
    } else {
        None
    }
}

impl Instructions {
    /// Whether every key is `n` cells long, and whether every action writes
    /// `n` cells and makes `n` moves.
    pub fn fits(&self, n: usize) -> (fit: (bool, bool))
        requires
            self.wf(),
        ensures
            fit.0 == keys_fit(self@, n as nat),
            fit.1 == actions_fit(self@, n as nat),
    {
        let mut keys = true;
        let mut actions = true;
        let mut i: usize = 0;
        proof {
            self.lemma_places();
        }
        while i < self.entries.len()
            invariant
                self.wf(),
                i <= self.entries@.len(),
                keys == (forall|j: int| 0 <= j < i ==> (#[trigger] self.entries@[j]).0@.len() == n),
                actions == (forall|j: int|
                    0 <= j < i ==> (#[trigger] self.entries@[j]).1.1@.len() == n
                        && self.entries@[j].1.2@.len() == n),
            decreases self.entries@.len() - i,
        {
            if self.entries[i].0.len() != n {
                keys = false;
            }
            if self.entries[i].1.1.len() != n || self.entries[i].1.2.len() != n {
                actions = false;
            }
            i += 1;
        }
        proof {
            if keys {
                assert forall|key: Seq<Cell>| #[trigger] self@.contains_key(key) implies key.len()
                    == n by {
                    lemma_first_with_key(self.entries@, key, 0);
                }
            } else {
                let j = choose|j: int|
                    0 <= j < i && (#[trigger] self.entries@[j]).0@.len() != n;
                assert(self@.contains_key(self.key_at(j)));
            }
            if actions {
                assert forall|key: Seq<Cell>| #[trigger] self@.contains_key(key) implies self@[key].cells.len()
                    == n && self@[key].directions.len() == n by {
                    lemma_first_with_key(self.entries@, key, 0);
                }
            } else {
                let j = choose|j: int|
                    0 <= j < i && !((#[trigger] self.entries@[j]).1.1@.len() == n
                        && self.entries@[j].1.2@.len() == n);
                lemma_first_with_key(self.entries@, self.key_at(j), 0);
                assert(self@.contains_key(self.key_at(j)));
                assert(self.position(self.key_at(j)) == j);
            }
        }
        (keys, actions)
    }
}

/// The rules of a machine, state by state. No state is stored twice, and a
/// state stays where it was first put.
pub struct Program {
    entries: Vec<(String, Instructions)>,
}

/// From place `from` on, the first place of `entries` that holds `state`, or
/// the length of `entries` if none does.
pub open spec fn first_with_state(entries: Seq<(String, Instructions)>, state: Seq<char>, from: int) -> int
    decreases entries.len() - from,
{
    if from < 0 || from >= entries.len() {
        entries.len() as int
    } else if entries[from].0@ == state {
        from
    } else {
        first_with_state(entries, state, from + 1)
    }
}

/// `first_with_state` finds a place that holds the state and passes over
/// places that do not.
pub proof fn lemma_first_with_state(entries: Seq<(String, Instructions)>, state: Seq<char>, from: int)
    requires
        0 <= from <= entries.len(),
    ensures
        from <= first_with_state(entries, state, from) <= entries.len(),
        first_with_state(entries, state, from) < entries.len() ==> entries[first_with_state(
            entries,
            state,
            from,
        )].0@ == state,
        forall|i: int| from <= i < first_with_state(entries, state, from) ==> entries[i].0@ != state,
    decreases entries.len() - from,
{
    if from < entries.len() && entries[from].0@ != state {
        lemma_first_with_state(entries, state, from + 1);
    }
}

/// Where two runs of entries hold the same states, a state is found at the
/// same place in both.
proof fn lemma_first_with_state_same_keys(
    a: Seq<(String, Instructions)>,
    b: Seq<(String, Instructions)>,
    state: Seq<char>,
    from: int,
)
    requires
        0 <= from <= a.len(),
        a.len() == b.len(),
        forall|i: int| 0 <= i < a.len() ==> a[i].0@ == b[i].0@,
    ensures
        first_with_state(a, state, from) == first_with_state(b, state, from),
    decreases a.len() - from,
{
    if from < a.len() && a[from].0@ != state {
        lemma_first_with_state_same_keys(a, b, state, from + 1);
    }
}

/// How a new last entry changes where a state is found.
proof fn lemma_first_with_state_push(
    a: Seq<(String, Instructions)>,
    entry: (String, Instructions),
    state: Seq<char>,
    from: int,
)
    requires
        0 <= from <= a.len(),
    ensures
        first_with_state(a, state, from) < a.len() ==> first_with_state(a.push(entry), state, from)
            == first_with_state(a, state, from),
        first_with_state(a, state, from) >= a.len() && entry.0@ == state ==> first_with_state(
            a.push(entry),
            state,
            from,
        ) == a.len(),
        first_with_state(a, state, from) >= a.len() && entry.0@ != state ==> first_with_state(
            a.push(entry),
            state,
            from,
        ) == a.len() + 1,
    decreases a.len() - from,
{
    let b = a.push(entry);
    if from < a.len() {
        assert(b[from] == a[from]);
        if a[from].0@ != state {
            lemma_first_with_state_push(a, entry, state, from + 1);
        }
    } else {
        assert(b[from] == entry);
        assert(first_with_state(b, state, from + 1) == b.len());
    }
}

impl View for Program {
    type V = ProgramView;

    closed spec fn view(&self) -> ProgramView {
        Map::new(
            |state: Seq<char>| self.position(state) < self.entries@.len(),
            |state: Seq<char>| self.entries@[self.position(state)].1@,
        )
    }
}

impl Program {
    /// The first place at which `state` is stored, or the number of states
    /// if it is stored nowhere.
    spec fn position(&self, state: Seq<char>) -> int {
        first_with_state(self.entries@, state, 0)
    }

    /// No state is stored twice, and the rules of each state are well
    /// formed.
    pub closed spec fn wf(&self) -> bool {
        &&& forall|i: int, j: int|
            0 <= i < j < self.entries@.len() ==> (#[trigger] self.entries@[i]).0@
                != (#[trigger] self.entries@[j]).0@
        &&& forall|i: int| 0 <= i < self.entries@.len() ==> (#[trigger] self.entries@[i]).1.wf()
    }

    /// No states and no rules.
    pub fn new() -> (program: Program)
        ensures
            program.wf(),
            program@ == Map::<Seq<char>, InstructionsView>::empty(),
    {
        let program = Program { entries: Vec::new() };
        assert(program@ =~= Map::<Seq<char>, InstructionsView>::empty());
        program
    }

    /// The place at which `state` is stored, if it is.
    fn find(&self, state: &String) -> (place: usize)
        ensures
            place == self.position(state@),
            place <= self.entries@.len(),
    {
        let mut i: usize = 0;
        while i < self.entries.len()
            invariant
                i <= self.entries@.len(),
                first_with_state(self.entries@, state@, i as int) == self.position(state@),
            decreases self.entries@.len() - i,
        {
            if self.entries[i].0 == *state {
                return i;
            }
            i += 1;
        }
        i
    }

    /// The rules of `state`, if it has any stored.
    pub fn get(&self, state: &String) -> (found: Option<&Instructions>)
        requires
            self.wf(),
        ensures
            found.is_some() == self@.contains_key(state@),
            found.is_some() ==> found.unwrap().wf() && found.unwrap()@ == self@[state@],
    {
        let place = self.find(state);
        if place < self.entries.len() {
            Some(&self.entries[place].1)
        } else {
            None
        }
    }

    /// Stores the rules of a state. Rules already stored for the same state
    /// are replaced as a whole, and returned.
    pub fn insert(&mut self, state: String, instructions: Instructions) -> (replaced: Option<
        Instructions,
    >)
        requires
            old(self).wf(),
            instructions.wf(),
        ensures
            final(self).wf(),
            final(self)@ == old(self)@.insert(state@, instructions@),
            replaced.is_some() == old(self)@.contains_key(state@),
            replaced.is_some() ==> replaced.unwrap()@ == old(self)@[state@],
    {
        let place = self.find(&state);
        let ghost before = self.entries@;
        proof {
            lemma_first_with_state(before, state@, 0);
        }
        if place < self.entries.len() {
            let mut swapped = instructions;
            std::mem::swap(&mut self.entries[place].1, &mut swapped);
            proof {
                let after = self.entries@;
                assert forall|s: Seq<char>| first_with_state(after, s, 0) == first_with_state(
                    before,
                    s,
                    0,
                ) by {
                    lemma_first_with_state_same_keys(before, after, s, 0);
                }
                assert forall|s: Seq<char>| #[trigger] self@.contains_key(s) implies self@[s] == old(
                    self,
                )@.insert(state@, instructions@)[s] by {
                    lemma_first_with_state(before, s, 0);
                }
                assert(self@ =~= old(self)@.insert(state@, instructions@));
            }
            Some(swapped)
        } else {
            self.entries.push((state, instructions));
            proof {
                let after = self.entries@;
                assert forall|s: Seq<char>| first_with_state(after, s, 0) == (if s == state@ {
                    before.len() as int
                } else if first_with_state(before, s, 0) < before.len() {
                    first_with_state(before, s, 0)
                } else {
                    after.len() as int
                }) by {
                    lemma_first_with_state_push(before, (state, instructions), s, 0);
                    lemma_first_with_state(before, s, 0);
                }
                assert forall|s: Seq<char>| #[trigger] self@.contains_key(s) implies self@[s] == old(
                    self,
                )@.insert(state@, instructions@)[s] by {
                    lemma_first_with_state(before, s, 0);
                    lemma_first_with_state(after, s, 0);
                }
                assert(self@ =~= old(self)@.insert(state@, instructions@));
            }
            None
        }
    }
}

/// The program with one more rule: in `state`, on `key`, do `action`. A rule
/// that the program already holds for `state` and `key` gives way to it.
pub open spec fn with_rule(program: ProgramView, state: Seq<char>, key: Seq<Cell>, action: Action) -> ProgramView {
    let rules = if program.contains_key(state) {
        program[state]
    } else {
        Map::<Seq<Cell>, Action>::empty()
    };
    program.insert(state, rules.insert(key, action))
}

impl Program {
    /// Adds a rule to those of `state`. A rule already stored for `state`
    /// under the same key is replaced; the result says whether one was.
    pub fn add_rule(
        &mut self,
        state: String,
        key: Vec<Cell>,
        action: (String, Vec<Cell>, Vec<Direction>),
    ) -> (replaced: bool)
        requires
            old(self).wf(),
        ensures
            final(self).wf(),
            final(self)@ == with_rule(old(self)@, state@, key@, action_of(action)),
            replaced == (old(self)@.contains_key(state@) && old(self)@[state@].contains_key(key@)),
    {
        let place = self.find(&state);
        let ghost before = self.entries@;
        proof {
            lemma_first_with_state(before, state@, 0);
        }
        if place < self.entries.len() {
            let replaced = self.entries[place].1.insert(key, action);
            proof {
                let after = self.entries@;
                assert forall|s: Seq<char>| first_with_state(after, s, 0) == first_with_state(
                    before,
                    s,
                    0,
                ) by {
                    lemma_first_with_state_same_keys(before, after, s, 0);
                }
                assert forall|s: Seq<char>| #[trigger] self@.contains_key(s) implies self@[s]
                    == with_rule(old(self)@, state@, key@, action_of(action))[s] by {
                    lemma_first_with_state(before, s, 0);
                }
                assert(self@ =~= with_rule(old(self)@, state@, key@, action_of(action)));
            }
            replaced.is_some()
        } else {
            let mut rules = Instructions::new();
            rules.insert(key, action);
            self.entries.push((state, rules));
            proof {
                let after = self.entries@;
                assert forall|s: Seq<char>| first_with_state(after, s, 0) == (if s == state@ {
                    before.len() as int
                } else if first_with_state(before, s, 0) < before.len() {
                    first_with_state(before, s, 0)
                } else {
                    after.len() as int
                }) by {
                    lemma_first_with_state_push(before, (state, rules), s, 0);
                    lemma_first_with_state(before, s, 0);
                }
                assert forall|s: Seq<char>| #[trigger] self@.contains_key(s) implies self@[s]
                    == with_rule(old(self)@, state@, key@, action_of(action))[s] by {
                    lemma_first_with_state(before, s, 0);
                    lemma_first_with_state(after, s, 0);
                }
                assert(self@ =~= with_rule(old(self)@, state@, key@, action_of(action)));
            }
            false
        }
    }

    /// Why the program cannot drive a machine of `n` tapes, or `None` if it
    /// can.
    pub fn check(&self, n: usize) -> (verdict: Option<Error>)
        requires
            self.wf(),
        ensures
            verdict == refusal(self@, n as nat),
    {
        let mut any = false;
        let mut keys = true;
        let mut actions = true;
        let mut i: usize = 0;
        while i < self.entries.len()
            invariant
                self.wf(),
                i <= self.entries@.len(),
                any == (exists|j: int| 0 <= j < i && (#[trigger] self.entries@[j]).1.count() > 0),
                keys == (forall|j: int|
                    0 <= j < i ==> keys_fit((#[trigger] self.entries@[j]).1@, n as nat)),
                actions == (forall|j: int|
                    0 <= j < i ==> actions_fit((#[trigger] self.entries@[j]).1@, n as nat)),
            decreases self.entries@.len() - i,
        {
            let rules = &self.entries[i].1;
            if rules.len() > 0 {
                any = true;
            }
            let fit = rules.fits(n);
            if !fit.0 {
                keys = false;
            }
            if !fit.1 {
                actions = false;
            }
            i += 1;
        }
        proof {
            let entries = self.entries@;
            if any {
                let j = choose|j: int| 0 <= j < i && (#[trigger] entries[j]).1.count() > 0;
                entries[j].1.lemma_places();
                lemma_first_with_state(entries, entries[j].0@, 0);
                assert(self.position(entries[j].0@) == j);
                assert(self@.contains_key(entries[j].0@));
                assert(self@[entries[j].0@].contains_key(entries[j].1.key_at(0)));
            } else {
                assert forall|state: Seq<char>, key: Seq<Cell>|
                    self@.contains_key(state) implies !#[trigger] self@[state].contains_key(key) by {
                    lemma_first_with_state(entries, state, 0);
                    entries[self.position(state)].1.lemma_places();
                }
            }
            if keys {
                assert forall|state: Seq<char>| #[trigger] self@.contains_key(state) implies keys_fit(
                    self@[state],
                    n as nat,
                ) by {
                    lemma_first_with_state(entries, state, 0);
                }
            } else {
                let j = choose|j: int| 0 <= j < i && !keys_fit((#[trigger] entries[j]).1@, n as nat);
                lemma_first_with_state(entries, entries[j].0@, 0);
                assert(self.position(entries[j].0@) == j);
                assert(self@.contains_key(entries[j].0@));
            }
            if actions {
                assert forall|state: Seq<char>| #[trigger]
                    self@.contains_key(state) implies actions_fit(self@[state], n as nat) by {
                    lemma_first_with_state(entries, state, 0);
                }
            } else {
                let j = choose|j: int|
                    0 <= j < i && !actions_fit((#[trigger] entries[j]).1@, n as nat);
                lemma_first_with_state(entries, entries[j].0@, 0);
                assert(self.position(entries[j].0@) == j);
                assert(self@.contains_key(entries[j].0@));
            }
        }
        if !any {
            Some(Error::NoInstructions)
        } else if !keys {
            Some(Error::TapeCountMismatch)
        } else if !actions {
            Some(Error::InvalidInstructionLength)
        } else if n == 0 {
            Some(Error::ZeroLengthKey)
        } else {
            None
        }
    }
}

/// What a rule does once it applies.
pub open spec fn action_in(rule: RuleView) -> Action {
    Action { state: rule.ostate, cells: rule.ocells, directions: rule.directions }
}

/// The program that a list of rules makes: the rules are added one after
/// another, first to last, so that of two rules for the same state and the
/// same cells the later one stands.
pub open spec fn program_of(rules: Seq<RuleView>) -> ProgramView
    decreases rules.len(),
{
    if rules.len() == 0 {
        Map::empty()
    } else {
        let rule = rules.last();
        with_rule(program_of(rules.drop_last()), rule.istate, rule.icells, action_in(rule))
    }
}

/// The place of the last rule in the list that is for `state` and `key`, or
/// -1 if there is none.
pub open spec fn last_rule_for(rules: Seq<RuleView>, state: Seq<char>, key: Seq<Cell>) -> int
    decreases rules.len(),
{
    if rules.len() == 0 {
        -1
    } else if rules.last().istate == state && rules.last().icells == key {
        rules.len() - 1
    } else {
        last_rule_for(rules.drop_last(), state, key)
    }
}

/// `last_rule_for` names a rule for the state and the key, after which the
/// list holds no other for them.
pub proof fn lemma_last_rule_for(rules: Seq<RuleView>, state: Seq<char>, key: Seq<Cell>)
    ensures
        -1 <= last_rule_for(rules, state, key) < rules.len(),
        last_rule_for(rules, state, key) >= 0 ==> rules[last_rule_for(rules, state, key)].istate
            == state && rules[last_rule_for(rules, state, key)].icells == key,
        forall|i: int|
            last_rule_for(rules, state, key) < i < rules.len() ==> !((#[trigger] rules[i]).istate
                == state && rules[i].icells == key),
    decreases rules.len(),
{
    if rules.len() > 0 && !(rules.last().istate == state && rules.last().icells == key) {
        let front = rules.drop_last();
        lemma_last_rule_for(front, state, key);
        assert forall|i: int| last_rule_for(rules, state, key) < i < rules.len() implies !((
        #[trigger] rules[i]).istate == state && rules[i].icells == key) by {
            if i < front.len() {
                assert(front[i] == rules[i]);
            }
        }
    }
}

/// Last write wins: the program made of a list of rules has a rule for a
/// state and a tuple of cells exactly when the list holds one, and what it
/// does is what the last such rule of the list says.
pub proof fn lemma_program_of_lookup(rules: Seq<RuleView>, state: Seq<char>, key: Seq<Cell>)
    ensures
        (program_of(rules).contains_key(state) && program_of(rules)[state].contains_key(key))
            <==> last_rule_for(rules, state, key) >= 0,
        last_rule_for(rules, state, key) >= 0 ==> program_of(rules)[state][key] == action_in(
            rules[last_rule_for(rules, state, key)],
        ),
    decreases rules.len(),
{
    if rules.len() > 0 {
        let front = rules.drop_last();
        lemma_program_of_lookup(front, state, key);
        lemma_last_rule_for(front, state, key);
    }
}

/// A program made of rules that are all for `n` tapes fits a machine of `n`
/// tapes, and holds a rule if the list does.
pub proof fn lemma_program_of_fits(rules: Seq<RuleView>, n: nat)
    requires
        forall|i: int|
            0 <= i < rules.len() ==> (#[trigger] rules[i]).icells.len() == n && rules[i].ocells.len()
                == n && rules[i].directions.len() == n,
    ensures
        all_keys_fit(program_of(rules), n),
        all_actions_fit(program_of(rules), n),
        rules.len() > 0 ==> has_rule(program_of(rules)),
    decreases rules.len(),
{
    if rules.len() > 0 {
        let front = rules.drop_last();
        let rule = rules.last();
        assert forall|i: int| 0 <= i < front.len() implies (#[trigger] front[i]).icells.len() == n
            && front[i].ocells.len() == n && front[i].directions.len() == n by {
            assert(front[i] == rules[i]);
        }
        lemma_program_of_fits(front, n);
        let program = program_of(rules);
        assert(program.contains_key(rule.istate) && program[rule.istate].contains_key(rule.icells));
    }
}

/// How many rules of the list replace an earlier rule for the same state and
/// the same cells.
pub open spec fn overwritten(rules: Seq<RuleView>) -> nat
    decreases rules.len(),
{
    if rules.len() == 0 {
        0
    } else {
        let front = rules.drop_last();
        let rule = rules.last();
        if last_rule_for(front, rule.istate, rule.icells) >= 0 {
            overwritten(front) + 1
        } else {
            overwritten(front)
        }
    }
}

/// No more rules replace an earlier one than the list has after its first.
pub proof fn lemma_overwritten_bounded(rules: Seq<RuleView>)
    ensures
        overwritten(rules) <= rules.len(),
        rules.len() > 0 ==> overwritten(rules) < rules.len(),
    decreases rules.len(),
{
    if rules.len() > 0 {
        let front = rules.drop_last();
        lemma_overwritten_bounded(front);
        lemma_last_rule_for(front, rules.last().istate, rules.last().icells);
    }
}

} // verus!
