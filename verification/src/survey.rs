//! Probing a machine for its hardest input: the most steps that it takes on
//! any word of a given length.

use crate::machine::{texts, MachineView, TuringMachine};
use crate::program::ProgramView;
use crate::words::{total, word_at, ExhaustiveWordsIter};
use vstd::prelude::*;

verus! {

/// The start of `n` tapes for an input word: the word on the first, nothing
/// on the others.
pub open spec fn padded(word: Seq<char>, n: nat) -> Seq<Seq<char>> {
    Seq::new(
        n,
        |i: int|
            if i == 0 {
                word
            } else {
                Seq::empty()
            },
    )
}

/// How many steps, `limit` at most, a machine of `n` tapes with `program`
/// takes from `state` on the input `word`.
pub open spec fn steps_on(program: ProgramView, n: nat, state: Seq<char>, word: Seq<char>, limit: nat) -> nat {
    MachineView::fresh(padded(word, n), state, program).run_length(limit)
}

/// The most steps that the machine takes on any of the first `k` words of
/// length `length` over `alphabet`; 0 for no word.
pub open spec fn worst_of(
    program: ProgramView,
    n: nat,
    state: Seq<char>,
    alphabet: Seq<char>,
    length: nat,
    limit: nat,
    k: nat,
) -> nat
    decreases k,
{
    if k == 0 {
        0
    } else {
        let before = worst_of(program, n, state, alphabet, length, limit, (k - 1) as nat);
        let here = steps_on(program, n, state, word_at(alphabet, length, (k - 1) as nat), limit);
        if here > before {
            here
        } else {
            before
        }
    }
}

/// The worst case is the step count of one of the words, bounds that of
/// every word, and never passes the limit.
pub proof fn lemma_worst_of(
    program: ProgramView,
    n: nat,
    state: Seq<char>,
    alphabet: Seq<char>,
    length: nat,
    limit: nat,
    k: nat,
)
    ensures
        worst_of(program, n, state, alphabet, length, limit, k) <= limit,
        forall|j: nat|
            j < k ==> #[trigger] steps_on(program, n, state, word_at(alphabet, length, j), limit)
                <= worst_of(program, n, state, alphabet, length, limit, k),
        k > 0 ==> exists|j: nat|
            j < k && #[trigger] steps_on(program, n, state, word_at(alphabet, length, j), limit)
                == worst_of(program, n, state, alphabet, length, limit, k),
    decreases k,
{
    if k > 0 {
        let earlier = (k - 1) as nat;
        lemma_worst_of(program, n, state, alphabet, length, limit, earlier);
        let here = steps_on(program, n, state, word_at(alphabet, length, earlier), limit);
        lemma_run_length_bounded(
            MachineView::fresh(padded(word_at(alphabet, length, earlier), n), state, program),
            limit,
        );
        let before = worst_of(program, n, state, alphabet, length, limit, earlier);
        if here > before || earlier == 0 {
            assert(steps_on(program, n, state, word_at(alphabet, length, earlier), limit)
                == worst_of(program, n, state, alphabet, length, limit, k));
        } else {
            let j = choose|j: nat|
                j < earlier && #[trigger] steps_on(
                    program,
                    n,
                    state,
                    word_at(alphabet, length, j),
                    limit,
                ) == before;
            assert(steps_on(program, n, state, word_at(alphabet, length, j), limit) == worst_of(
                program,
                n,
                state,
                alphabet,
                length,
                limit,
                k,
            ));
        }
    }
}

/// A run never takes more steps than its limit.
pub proof fn lemma_run_length_bounded(m: MachineView, limit: nat)
    ensures
        m.run_length(limit) <= limit,
    decreases limit,
{
    if limit > 0 && m.enabled() && m.movable() {
        lemma_run_length_bounded(m.step(), (limit - 1) as nat);
    }
}

/// Restarts the machine in `start_state` on the input `word`: the word goes
/// on the first tape, the other tapes start empty.
pub fn begin(tm: &mut TuringMachine, word: &str, start_state: &String)
    requires
        old(tm).wf(),
        word@.len() <= isize::MAX,
    ensures
        final(tm).wf(),
        final(tm)@ == MachineView::fresh(
            padded(word@, old(tm)@.tapes.len()),
            start_state@,
            old(tm)@.program,
        ),
        final(tm)@.tapes.len() == old(tm)@.tapes.len(),
{
    proof {
        tm.lemma_wf_view();
        reveal_strlit("");
    }
    let n = tm.tape_count();
    let mut tapes: Vec<&str> = Vec::new();
    tapes.push(word);
    while tapes.len() < n
        invariant
            1 <= tapes@.len() <= n,
            tapes@[0]@ == word@,
            forall|i: int| 1 <= i < tapes@.len() ==> (#[trigger] tapes@[i])@.len() == 0,
        decreases n - tapes@.len(),
    {
        proof {
            reveal_strlit("");
        }
        tapes.push("");
    }
    assert(texts(tapes@) =~= padded(word@, n as nat)) by {
        assert forall|i: int| 0 <= i < n implies texts(tapes@)[i] == padded(word@, n as nat)[i] by {
            if i > 0 {
                assert(tapes@[i]@ =~= Seq::<char>::empty());
            }
        }
    }
    match tm.restart(tapes.as_slice(), start_state.clone()) {
        Ok(()) => {},
        Err(_) => vstd::pervasive::unreached(),
    }
}

/// Takes one more batch of a trial that has taken `steps` steps so far:
/// `batch` steps at most, and no more than are left under the cap `cap`.
/// Returns the steps that the trial has then taken, and whether it is still
/// open: the batch was used up and the cap is not reached.
pub fn resume(tm: &mut TuringMachine, steps: usize, cap: usize, batch: usize) -> (r: (usize, bool))
    requires
        old(tm).wf(),
        steps <= cap,
    ensures
        final(tm).wf(),
        final(tm)@.program == old(tm)@.program,
        final(tm)@.tapes.len() == old(tm)@.tapes.len(),
        steps <= r.0 <= cap,
        r.0 - steps == old(tm)@.run_length(
            if batch <= cap - steps {
                batch as nat
            } else {
                (cap - steps) as nat
            },
        ),
        final(tm)@ == old(tm)@.after((r.0 - steps) as nat),
        r.1 == (batch > 0 && r.0 - steps == batch && r.0 < cap),
        !r.1 && r.0 < cap && batch > 0 ==> !final(tm)@.enabled() || !final(tm)@.movable(),
{
    let left = cap - steps;
    let limit = if batch <= left {
        batch
    } else {
        left
    };
    let taken = tm.run(limit);
    let total = steps + taken;
    (total, batch > 0 && taken == batch && total < cap)
}

/// Restarts the machine in `start_state` on the input `word`, which goes on
/// the first tape while the others start empty, runs it for `limit` steps
/// at most, and returns the number of steps taken.
pub fn probe(tm: &mut TuringMachine, word: &str, start_state: &String, limit: usize) -> (steps: usize)
    requires
        old(tm).wf(),
        word@.len() <= isize::MAX,
    ensures
        final(tm).wf(),
        final(tm)@.program == old(tm)@.program,
        final(tm)@.tapes.len() == old(tm)@.tapes.len(),
        steps == steps_on(old(tm)@.program, old(tm)@.tapes.len(), start_state@, word@, limit as nat),
        final(tm)@ == MachineView::fresh(
            padded(word@, old(tm)@.tapes.len()),
            start_state@,
            old(tm)@.program,
        ).after(steps as nat),
{
    begin(tm, word, start_state);
    tm.run(limit)
}

/// The most steps, `limit` at most for each input, that the machine takes
/// from `start_state` on any word of length `length` over `alphabet`. The
/// machine is restarted on each word in turn.
pub fn worst_case(
    tm: &mut TuringMachine,
    alphabet: &[char],
    length: usize,
    start_state: &String,
    limit: usize,
) -> (worst: usize)
    requires
        old(tm).wf(),
        length <= isize::MAX,
    ensures
        final(tm).wf(),
        final(tm)@.program == old(tm)@.program,
        final(tm)@.tapes.len() == old(tm)@.tapes.len(),
        worst <= limit,
        worst == worst_of(
            old(tm)@.program,
            old(tm)@.tapes.len(),
            start_state@,
            alphabet@,
            length as nat,
            limit as nat,
            total(alphabet@.len(), length as nat),
        ),
{
    let ghost program = old(tm)@.program;
    let ghost n = old(tm)@.tapes.len();
    let mut words = ExhaustiveWordsIter::new(alphabet, length);
    let mut worst: usize = 0;
    loop
        invariant
            tm.wf(),
            words.wf(),
            tm@.program == program,
            tm@.tapes.len() == n,
            length <= isize::MAX,
            words@.alphabet == alphabet@,
            words@.length == length,
            words@.produced <= words@.total(),
            worst == worst_of(
                program,
                n,
                start_state@,
                alphabet@,
                length as nat,
                limit as nat,
                words@.produced,
            ),
        ensures
            tm.wf(),
            tm@.program == program,
            tm@.tapes.len() == n,
            worst == worst_of(
                program,
                n,
                start_state@,
                alphabet@,
                length as nat,
                limit as nat,
                total(alphabet@.len(), length as nat),
            ),
        decreases words@.total() - words@.produced,
    {
        let word = match words.next() {
            Some(word) => word,
            None => {
                break ;
            },
        };
        proof {
            words.lemma_produced_bounded();
        }
        let steps = probe(tm, word.as_str(), start_state, limit);
        if steps > worst {
            worst = steps;
        }
    }
    proof {
        lemma_worst_of(
            program,
            n,
            start_state@,
            alphabet@,
            length as nat,
            limit as nat,
            total(alphabet@.len(), length as nat),
        );
    }
    worst
}

} // verus!
