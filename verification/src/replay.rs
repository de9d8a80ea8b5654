//! Whole runs of the traversal: the answers that a decoder gave, and what
//! holds of every run.

use vstd::prelude::*;
use crate::disasm::{DecodeError, Instruction, Mode};
use crate::laws::{extends, lemma_step, pending};
use crate::memory::{lemma_same_layout_covers, lemma_same_layout_trans, same_layout};
use crate::model::EngineModel;

verus! {

/// The decoder `decoder` may have given the answer `answer` for the first
/// item of the queue of `e`: for the window of bytes at the item's address,
/// that address and the engine's mode. Where no region holds the address the
/// decoder is not asked, and every answer will do.
pub open spec fn answered<D: Fn(&[u8], u64, Mode) -> Result<Instruction, DecodeError>>(
    e: EngineModel,
    decoder: D,
    answer: Result<Instruction, DecodeError>,
) -> bool {
    match e.request() {
        Some(w) => exists|b: &[u8]|
            b@ == w && #[trigger] decoder.ensures((b, e.queue[0].offset, e.mode), answer),
        None => true,
    }
}

/// The answers `answers` are what `decoder` may have given on the way from
/// the engine `start`, one for each step, with an item in the queue at each.
pub open spec fn consistent<D: Fn(&[u8], u64, Mode) -> Result<Instruction, DecodeError>>(
    start: EngineModel,
    decoder: D,
    answers: Seq<Result<Instruction, DecodeError>>,
) -> bool {
    forall|i: int|
        0 <= i < answers.len() ==> (#[trigger] start.replay(answers.take(i))).queue.len() > 0
            && answered(start.replay(answers.take(i)), decoder, answers[i])
}

/// The decoder gives one answer for one question: the same bytes, address
/// and mode never get two different answers.
pub open spec fn is_function<D: Fn(&[u8], u64, Mode) -> Result<Instruction, DecodeError>>(
    decoder: D,
) -> bool {
    forall|
        b1: &[u8],
        b2: &[u8],
        a: u64,
        m: Mode,
        r1: Result<Instruction, DecodeError>,
        r2: Result<Instruction, DecodeError>,
    |
        b1@ == b2@ && #[trigger] decoder.ensures((b1, a, m), r1) && #[trigger] decoder.ensures(
            (b2, a, m),
            r2,
        ) ==> r1 == r2
}

/// A run goes on by one step where the decoder may have given the next
/// answer.
pub proof fn lemma_consistent_push<D: Fn(&[u8], u64, Mode) -> Result<Instruction, DecodeError>>(
    start: EngineModel,
    decoder: D,
    answers: Seq<Result<Instruction, DecodeError>>,
    answer: Result<Instruction, DecodeError>,
)
    requires
        consistent(start, decoder, answers),
        start.replay(answers).queue.len() > 0,
        answered(start.replay(answers), decoder, answer),
    ensures
        consistent(start, decoder, answers.push(answer)),
        start.replay(answers.push(answer)) == start.replay(answers).step(answer),
{
    let longer = answers.push(answer);
    assert(longer.drop_last() =~= answers);
    assert forall|i: int| 0 <= i < longer.len() implies (#[trigger] start.replay(
        longer.take(i),
    )).queue.len() > 0 && answered(start.replay(longer.take(i)), decoder, longer[i]) by {
        if i < answers.len() {
            assert(longer.take(i) =~= answers.take(i));
            assert(start.replay(answers.take(i)).queue.len() > 0);
        } else {
            assert(longer.take(i) =~= answers);
        }
    }
}

/// What holds after every run, whatever the answers were: the invariant,
/// with it containment and the integrity of the function table; the regions
/// keep their layout; the instruction map and the function table only grow.
pub proof fn lemma_replay(start: EngineModel, answers: Seq<Result<Instruction, DecodeError>>)
    requires
        start.wf(),
    ensures
        start.replay(answers).wf(),
        same_layout(start.memory, start.replay(answers).memory),
        forall|a: u64| #[trigger]
            start.instructions.contains_key(a) ==> start.replay(answers).instructions.contains_key(
                a,
            ) && start.replay(answers).instructions[a] == start.instructions[a],
        extends(start.functions, start.replay(answers).functions),
        start.replay(answers).mode == start.mode,
    decreases answers.len(),
{
    lemma_same_layout_covers(start.memory, start.memory, 0, 0);
    if answers.len() > 0 {
        lemma_replay(start, answers.drop_last());
        let before = start.replay(answers.drop_last());
        if before.queue.len() > 0 {
            lemma_step(before, answers.last());
            lemma_same_layout_trans(start.memory, before.memory, start.replay(answers).memory);
        }
    }
}

/// Termination: a run from `start` has no more steps than the queue has
/// items plus twice the number of addresses that are left to decode.
pub proof fn lemma_run_bounded<D: Fn(&[u8], u64, Mode) -> Result<Instruction, DecodeError>>(
    start: EngineModel,
    decoder: D,
    answers: Seq<Result<Instruction, DecodeError>>,
)
    requires
        start.wf(),
        consistent(start, decoder, answers),
    ensures
        answers.len() + start.replay(answers).queue.len() + 2 * pending(
            start.replay(answers),
        ).len() <= start.queue.len() + 2 * pending(start).len(),
    decreases answers.len(),
{
    if answers.len() > 0 {
        let shorter = answers.drop_last();
        assert forall|i: int| 0 <= i < shorter.len() implies (#[trigger] start.replay(
            shorter.take(i),
        )).queue.len() > 0 && answered(start.replay(shorter.take(i)), decoder, shorter[i]) by {
            assert(shorter.take(i) =~= answers.take(i));
            assert(start.replay(answers.take(i)).queue.len() > 0);
        }
        lemma_run_bounded(start, decoder, shorter);
        lemma_replay(start, shorter);
        assert(answers.take(answers.len() - 1) =~= shorter);
        assert(start.replay(answers.take(answers.len() - 1)).queue.len() > 0);
        lemma_step(start.replay(shorter), answers.last());
    }
}

/// Two runs with one decoder that answers as a function agree step by step.
proof fn lemma_same_prefix<D: Fn(&[u8], u64, Mode) -> Result<Instruction, DecodeError>>(
    start: EngineModel,
    decoder: D,
    first: Seq<Result<Instruction, DecodeError>>,
    second: Seq<Result<Instruction, DecodeError>>,
    n: int,
)
    requires
        is_function(decoder),
        consistent(start, decoder, first),
        consistent(start, decoder, second),
        0 <= n <= first.len(),
        n <= second.len(),
    ensures
        start.replay(first.take(n)) == start.replay(second.take(n)),
    decreases n,
{
    if n > 0 {
        lemma_same_prefix(start, decoder, first, second, n - 1);
        let e = start.replay(first.take(n - 1));
        assert(e == start.replay(second.take(n - 1)));
        assert(first.take(n).drop_last() =~= first.take(n - 1));
        assert(second.take(n).drop_last() =~= second.take(n - 1));
        assert(first.take(n).last() == first[n - 1]);
        assert(second.take(n).last() == second[n - 1]);
        assert(e.queue.len() > 0);
        assert(answered(e, decoder, first[n - 1]));
        assert(answered(start.replay(second.take(n - 1)), decoder, second[n - 1]));
        match e.request() {
            Some(w) => {
                let b1 = choose|b: &[u8]|
                    b@ == w && #[trigger] decoder.ensures(
                        (b, e.queue[0].offset, e.mode),
                        first[n - 1],
                    );
                let b2 = choose|b: &[u8]|
                    b@ == w && #[trigger] decoder.ensures(
                        (b, e.queue[0].offset, e.mode),
                        second[n - 1],
                    );
                assert(first[n - 1] == second[n - 1]);
            },
            None => {},
        }
    }
}

/// Determinism: with a decoder that answers as a function, every run from
/// one engine to an empty queue ends in the same engine: the same
/// instruction map, function table and memory.
pub proof fn lemma_deterministic<D: Fn(&[u8], u64, Mode) -> Result<Instruction, DecodeError>>(
    start: EngineModel,
    decoder: D,
    first: Seq<Result<Instruction, DecodeError>>,
    second: Seq<Result<Instruction, DecodeError>>,
)
    requires
        is_function(decoder),
        consistent(start, decoder, first),
        consistent(start, decoder, second),
        start.replay(first).queue.len() == 0,
        start.replay(second).queue.len() == 0,
    ensures
        start.replay(first) == start.replay(second),
{
    assert(first.take(first.len() as int) =~= first);
    assert(second.take(second.len() as int) =~= second);
    if first.len() <= second.len() {
        lemma_same_prefix(start, decoder, first, second, first.len() as int);
        if first.len() < second.len() {
            assert(start.replay(second.take(first.len() as int)).queue.len() > 0);
        }
    } else {
        lemma_same_prefix(start, decoder, first, second, second.len() as int);
        assert(start.replay(first.take(second.len() as int)).queue.len() > 0);
    }
}

} // verus!
