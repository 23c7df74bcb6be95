//! One draw: the instruction is attempted until it produces a word, but never
//! more often than its retry ceiling allows.
use vstd::prelude::*;
use crate::errors::ErrorCode;
use crate::hardware::{
    attempt, attempts_in, grown, hits, lemma_attempts_in_both, lemma_grown_by, lemma_grown_twice,
    lemma_hits_of_both, lemma_one_more_event, Event, Hardware, Instruction, Processor, Width,
};
use crate::script::{drawn, lemma_leading_misses, lemma_skip_more, produced};

verus! {

/// Attempts that a draw of the random-number instruction makes at most.
pub const RDRAND_ATTEMPTS: u32 = 11;

/// Attempts that a draw of the random-seed instruction makes at most.
pub const RDSEED_ATTEMPTS: u32 = 128;

/// The retry ceiling: the number of attempts after which a draw gives up.
pub open spec fn ceiling(kind: Instruction) -> nat {
    match kind {
        Instruction::RdRand => RDRAND_ATTEMPTS as nat,
        Instruction::RdSeed => RDSEED_ATTEMPTS as nat,
    }
}

/// The record of `n` attempts in a row that produced nothing and were tried
/// again. The random-seed instruction is given a spin-wait hint after each.
pub open spec fn misses(kind: Instruction, width: Width, n: nat) -> Seq<Event>
    decreases n,
{
    if n == 0 {
        Seq::empty()
    } else {
        let tried = misses(kind, width, (n - 1) as nat).push(attempt(kind, width, None));
        match kind {
            Instruction::RdRand => tried,
            Instruction::RdSeed => tried.push(Event::Pause),
        }
    }
}

/// The record of a draw that ends with its attempt number `n + 1`, which
/// gave `outcome`.
pub open spec fn draw(kind: Instruction, width: Width, n: nat, outcome: Option<u64>) -> Seq<Event> {
    misses(kind, width, n).push(attempt(kind, width, outcome))
}

/// The record of a draw that gave up: every attempt up to the ceiling
/// produced nothing.
pub open spec fn exhausted(kind: Instruction, width: Width) -> Seq<Event> {
    draw(kind, width, (ceiling(kind) - 1) as nat, None)
}

/// What one draw adds to the trace `before`, and what it returns.
pub open spec fn drew(
    kind: Instruction,
    width: Width,
    before: Seq<Event>,
    after: Seq<Event>,
    r: Result<u64, ErrorCode>,
) -> bool {
    match r {
        Ok(word) => hit(kind, width, before, after, word),
        Err(e) => e == ErrorCode::HardwareFailure && after == before + exhausted(kind, width),
    }
}

/// A draw that produced `word` within the ceiling took the trace from `before`
/// to `after`.
pub open spec fn hit(
    kind: Instruction,
    width: Width,
    before: Seq<Event>,
    after: Seq<Event>,
    word: u64,
) -> bool {
    exists|n: nat|
        n < ceiling(kind) && after == before + #[trigger] draw(kind, width, n, Some(word))
}

/// Whether `word` is a word of `width`.
pub open spec fn fits(width: Width, word: u64) -> bool {
    match width {
        Width::W16 => word <= u16::MAX,
        Width::W32 => word <= u32::MAX,
        Width::W64 => true,
    }
}

/// The retry ceiling of `kind`.
pub fn attempts(kind: Instruction) -> (n: u32)
    ensures
        n == ceiling(kind),
{
    match kind {
        Instruction::RdRand => RDRAND_ATTEMPTS,
        Instruction::RdSeed => RDSEED_ATTEMPTS,
    }
}

/// Executes `kind` once, in the form of `width`.
pub fn step<H: Hardware>(cpu: &mut Processor<H>, kind: Instruction, width: Width) -> (word: Option<
    u64,
>)
    ensures
        final(cpu).trace() == old(cpu).trace().push(attempt(kind, width, word)),
        final(cpu).target() == old(cpu).target(),
        word matches Some(w) ==> fits(width, w),
        produced(old(cpu).script(), width, word, final(cpu).script()),
{
    match width {
        Width::W16 => match cpu.step16(kind) {
            Some(w) => Some(w as u64),
            None => None,
        },
        Width::W32 => match cpu.step32(kind) {
            Some(w) => Some(w as u64),
            None => None,
        },
        Width::W64 => cpu.step64(kind),
    }
}

/// Draws one word of `width`: attempts `kind` until it produces a word, and
/// gives up with `HardwareFailure` when as many attempts as the ceiling allows
/// have produced none.
pub fn retry<H: Hardware>(cpu: &mut Processor<H>, kind: Instruction, width: Width) -> (r: Result<
    u64,
    ErrorCode,
>)
    ensures
        drew(kind, width, old(cpu).trace(), final(cpu).trace(), r),
        final(cpu).target() == old(cpu).target(),
        r matches Ok(w) ==> fits(width, w),
        drawn(old(cpu).script(), kind, width, r, final(cpu).script()),
{
    let limit: u32 = attempts(kind);
    let mut idx: u32 = 0;
    loop
        invariant
            limit == ceiling(kind),
            idx < limit,
            cpu.trace() == old(cpu).trace() + misses(kind, width, idx as nat),
            cpu.target() == old(cpu).target(),
            old(cpu).script() matches Some(s) ==> cpu.script() == Some(s.skip(idx as nat)) && (
            forall|i: nat| i < idx ==> s.at(i) is None),
        decreases limit - idx,
    {
        let ghost tried = cpu.trace();
        let got = step(cpu, kind, width);
        proof {
            assert(tried.push(attempt(kind, width, got)) =~= old(cpu).trace() + draw(
                kind,
                width,
                idx as nat,
                got,
            ));
            if let Some(s) = old(cpu).script() {
                lemma_skip_more(s, idx as nat, 1);
                lemma_skip_more(s, idx as nat, 0);
            }
        }
        match got {
            Some(word) => {
                proof {
                    if let Some(s) = old(cpu).script() {
                        lemma_leading_misses(s, ceiling(kind), idx as nat);
                    }
                }
                return Ok(word);
            },
            None => {},
        }
        if idx == limit - 1 {
            proof {
                if let Some(s) = old(cpu).script() {
                    lemma_leading_misses(s, ceiling(kind), ceiling(kind));
                }
            }
            return Err(ErrorCode::HardwareFailure);
        }
        idx += 1;
        match kind {
            Instruction::RdRand => {},
            Instruction::RdSeed => {
                cpu.pause();
            },
        }
        proof {
            assert(cpu.trace() =~= old(cpu).trace() + misses(kind, width, idx as nat));
        }
    }
}

/// The record of one draw for each of `words`, in their order, where draw
/// number `k` produced its word after `misses[k]` attempts that produced none.
pub open spec fn draws(kind: Instruction, width: Width, misses: Seq<nat>, words: Seq<u64>) -> Seq<
    Event,
>
    decreases words.len(),
{
    if words.len() == 0 {
        Seq::empty()
    } else {
        draws(kind, width, misses.drop_last(), words.drop_last()) + draw(
            kind,
            width,
            misses.last(),
            Some(words.last()),
        )
    }
}

/// Every draw of a run stayed within the retry ceiling.
pub open spec fn within_ceiling(kind: Instruction, misses: Seq<nat>) -> bool {
    forall|k: int| 0 <= k < misses.len() ==> #[trigger] misses[k] < ceiling(kind)
}

/// The trace went from `before` to `after` by one draw for each of `words`, in
/// their order, and each draw produced its word within the ceiling.
pub open spec fn drew_all(
    kind: Instruction,
    width: Width,
    before: Seq<Event>,
    after: Seq<Event>,
    words: Seq<u64>,
) -> bool {
    exists|misses: Seq<nat>|
        misses.len() == words.len() && within_ceiling(kind, misses) && after == before
            + #[trigger] draws(kind, width, misses, words)
}

/// The trace went from `before` to `after` by one draw for each of `words`
/// and one more draw, which gave up.
pub open spec fn gave_up_after(
    kind: Instruction,
    width: Width,
    before: Seq<Event>,
    after: Seq<Event>,
    words: Seq<u64>,
) -> bool {
    exists|mid: Seq<Event>| #[trigger]
        drew_all(kind, width, before, mid, words) && after == mid + exhausted(kind, width)
}

/// No draw leaves the trace as it is.
pub proof fn lemma_drew_none(kind: Instruction, width: Width, trace: Seq<Event>)
    ensures
        drew_all(kind, width, trace, trace, Seq::empty()),
{
    let misses = Seq::<nat>::empty();
    assert(trace =~= trace + draws(kind, width, misses, Seq::<u64>::empty()));
    assert(within_ceiling(kind, misses));
}

/// One more successful draw extends a run of draws by its word.
pub proof fn lemma_drew_one_more(
    kind: Instruction,
    width: Width,
    start: Seq<Event>,
    before: Seq<Event>,
    after: Seq<Event>,
    words: Seq<u64>,
    word: u64,
)
    requires
        drew_all(kind, width, start, before, words),
        hit(kind, width, before, after, word),
    ensures
        drew_all(kind, width, start, after, words.push(word)),
{
    let misses = choose|misses: Seq<nat>|
        misses.len() == words.len() && within_ceiling(kind, misses) && before == start
            + #[trigger] draws(kind, width, misses, words);
    let n = choose|n: nat|
        n < ceiling(kind) && after == before + #[trigger] draw(kind, width, n, Some(word));
    let more = misses.push(n);
    let longer = words.push(word);
    assert(more.drop_last() =~= misses);
    assert(longer.drop_last() =~= words);
    assert(draws(kind, width, more, longer) == draws(kind, width, misses, words) + draw(
        kind,
        width,
        n,
        Some(word),
    ));
    assert(after =~= start + draws(kind, width, more, longer));
    assert(within_ceiling(kind, more));
}

/// Attempts that produced nothing count as attempts and leave no word.
pub proof fn lemma_misses(kind: Instruction, width: Width, n: nat)
    ensures
        attempts_in(misses(kind, width, n)) == n,
        hits(misses(kind, width, n)) == Seq::<u64>::empty(),
    decreases n,
{
    if n > 0 {
        lemma_misses(kind, width, (n - 1) as nat);
        let earlier = misses(kind, width, (n - 1) as nat);
        lemma_one_more_event(earlier, attempt(kind, width, None));
        lemma_one_more_event(earlier.push(attempt(kind, width, None)), Event::Pause);
    }
}

/// A draw that ends with its attempt number `n + 1` has made that many
/// attempts, and leaves the word of the last one, if it produced one.
pub proof fn lemma_draw(kind: Instruction, width: Width, n: nat, outcome: Option<u64>)
    ensures
        attempts_in(draw(kind, width, n, outcome)) == n + 1,
        hits(draw(kind, width, n, outcome)) == match outcome {
            Some(word) => Seq::empty().push(word),
            None => Seq::empty(),
        },
{
    lemma_misses(kind, width, n);
    lemma_one_more_event(misses(kind, width, n), attempt(kind, width, outcome));
}

/// A draw that returns a word has made at least one attempt and no more than
/// the retry ceiling allows; its last attempt produced the word, and no
/// attempt before it produced one.
pub proof fn lemma_success_within_ceiling(
    kind: Instruction,
    width: Width,
    before: Seq<Event>,
    after: Seq<Event>,
    word: u64,
)
    requires
        drew(kind, width, before, after, Ok(word)),
    ensures
        1 <= attempts_in(after) - attempts_in(before) <= ceiling(kind),
        after.last() == attempt(kind, width, Some(word)),
        hits(after) == hits(before).push(word),
{
    let n = choose|n: nat|
        n < ceiling(kind) && after == before + #[trigger] draw(kind, width, n, Some(word));
    let events = draw(kind, width, n, Some(word));
    lemma_draw(kind, width, n, Some(word));
    lemma_attempts_in_both(before, events);
    lemma_hits_of_both(before, events);
    assert(hits(before) + Seq::empty().push(word) =~= hits(before).push(word));
}

/// A draw that fails has made exactly as many attempts as the retry ceiling
/// allows, none of which produced a word, and fails with `HardwareFailure`.
pub proof fn lemma_failure_at_ceiling(
    kind: Instruction,
    width: Width,
    before: Seq<Event>,
    after: Seq<Event>,
    e: ErrorCode,
)
    requires
        drew(kind, width, before, after, Err(e)),
    ensures
        e == ErrorCode::HardwareFailure,
        attempts_in(after) - attempts_in(before) == ceiling(kind),
        hits(after) == hits(before),
{
    let events = exhausted(kind, width);
    lemma_draw(kind, width, (ceiling(kind) - 1) as nat, None);
    lemma_attempts_in_both(before, events);
    lemma_hits_of_both(before, events);
    assert(hits(before) + Seq::<u64>::empty() =~= hits(before));
}

/// A draw on a processor whose attempts all produce nothing fails.
pub proof fn lemma_all_missed_fails(
    kind: Instruction,
    width: Width,
    before: Seq<Event>,
    after: Seq<Event>,
    r: Result<u64, ErrorCode>,
)
    requires
        drew(kind, width, before, after, r),
        hits(after) == hits(before),
    ensures
        r == Err::<u64, ErrorCode>(ErrorCode::HardwareFailure),
{
    match r {
        Ok(word) => {
            lemma_success_within_ceiling(kind, width, before, after, word);
            assert(hits(before).push(word).len() == hits(before).len() + 1);
        },
        Err(e) => {},
    }
}

/// A run of draws leaves its words, in their order, and has made at least one
/// attempt for each word and no more than the retry ceiling allows for each.
pub proof fn lemma_draws(kind: Instruction, width: Width, misses: Seq<nat>, words: Seq<u64>)
    requires
        misses.len() == words.len(),
        within_ceiling(kind, misses),
    ensures
        hits(draws(kind, width, misses, words)) == words,
        words.len() <= attempts_in(draws(kind, width, misses, words)) <= words.len() * ceiling(
            kind,
        ),
    decreases words.len(),
{
    if words.len() == 0 {
        assert(hits(draws(kind, width, misses, words)) =~= words);
    } else {
        let earlier = draws(kind, width, misses.drop_last(), words.drop_last());
        let last = draw(kind, width, misses.last(), Some(words.last()));
        assert(within_ceiling(kind, misses.drop_last())) by {
            let shorter = misses.drop_last();
            assert forall|k: int| 0 <= k < shorter.len() implies #[trigger] shorter[k] < ceiling(
                kind,
            ) by {
                assert(shorter[k] == misses[k]);
            }
        }
        lemma_draws(kind, width, misses.drop_last(), words.drop_last());
        lemma_draw(kind, width, misses.last(), Some(words.last()));
        lemma_attempts_in_both(earlier, last);
        lemma_hits_of_both(earlier, last);
        assert(misses.last() == misses[misses.len() - 1]);
        assert(words.drop_last() + Seq::empty().push(words.last()) =~= words);
        assert((words.len() - 1) * ceiling(kind) + ceiling(kind) == words.len() * ceiling(kind))
            by (nonlinear_arith);
    }
}

/// After a run of draws the trace shows the words of the run behind those it
/// showed before.
pub proof fn lemma_drew_all_hits(
    kind: Instruction,
    width: Width,
    before: Seq<Event>,
    after: Seq<Event>,
    words: Seq<u64>,
)
    requires
        drew_all(kind, width, before, after, words),
    ensures
        hits(after) == hits(before) + words,
        words.len() <= attempts_in(after) - attempts_in(before) <= words.len() * ceiling(kind),
{
    let misses = choose|misses: Seq<nat>|
        misses.len() == words.len() && within_ceiling(kind, misses) && after == before
            + #[trigger] draws(kind, width, misses, words);
    lemma_draws(kind, width, misses, words);
    lemma_attempts_in_both(before, draws(kind, width, misses, words));
    lemma_hits_of_both(before, draws(kind, width, misses, words));
}

/// After a run of draws that ends with one that gave up, the trace shows the
/// words of the run behind those it showed before, and no other.
pub proof fn lemma_gave_up_hits(
    kind: Instruction,
    width: Width,
    before: Seq<Event>,
    after: Seq<Event>,
    words: Seq<u64>,
)
    requires
        gave_up_after(kind, width, before, after, words),
    ensures
        hits(after) == hits(before) + words,
{
    let mid = choose|mid: Seq<Event>| #[trigger]
        drew_all(kind, width, before, mid, words) && after == mid + exhausted(kind, width);
    lemma_drew_all_hits(kind, width, before, mid, words);
    lemma_draw(kind, width, (ceiling(kind) - 1) as nat, None);
    lemma_hits_of_both(mid, exhausted(kind, width));
    assert(hits(mid) + Seq::<u64>::empty() =~= hits(mid));
}

/// A draw only adds to the trace.
pub proof fn lemma_drew_grows(
    kind: Instruction,
    width: Width,
    before: Seq<Event>,
    after: Seq<Event>,
    r: Result<u64, ErrorCode>,
)
    requires
        drew(kind, width, before, after, r),
    ensures
        grown(before, after),
{
    match r {
        Ok(word) => {
            let n = choose|n: nat|
                n < ceiling(kind) && after == before + #[trigger] draw(
                    kind,
                    width,
                    n,
                    Some(word),
                );
            lemma_grown_by(before, draw(kind, width, n, Some(word)));
        },
        Err(_) => {
            lemma_grown_by(before, exhausted(kind, width));
        },
    }
}

/// A run of draws only adds to the trace.
pub proof fn lemma_drew_all_grows(
    kind: Instruction,
    width: Width,
    before: Seq<Event>,
    after: Seq<Event>,
    words: Seq<u64>,
)
    requires
        drew_all(kind, width, before, after, words),
    ensures
        grown(before, after),
{
    let misses = choose|misses: Seq<nat>|
        misses.len() == words.len() && within_ceiling(kind, misses) && after == before
            + #[trigger] draws(kind, width, misses, words);
    lemma_grown_by(before, draws(kind, width, misses, words));
}

/// A run of draws that ends with one that gave up only adds to the trace.
pub proof fn lemma_gave_up_grows(
    kind: Instruction,
    width: Width,
    before: Seq<Event>,
    after: Seq<Event>,
    words: Seq<u64>,
)
    requires
        gave_up_after(kind, width, before, after, words),
    ensures
        grown(before, after),
{
    let mid = choose|mid: Seq<Event>| #[trigger]
        drew_all(kind, width, before, mid, words) && after == mid + exhausted(kind, width);
    lemma_drew_all_grows(kind, width, before, mid, words);
    lemma_grown_by(mid, exhausted(kind, width));
    lemma_grown_twice(before, mid, after);
}

} // verus!
