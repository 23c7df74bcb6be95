//! The two generators. Each owns its processor, and exists only where
//! detection has found its instruction usable on that processor.
use vstd::prelude::*;
use crate::detector::{available, detected, found, is_available, queries};
use crate::errors::ErrorCode;
use crate::filler::{fill, filled, lemma_filled_grows, native_word};
use crate::hardware::{
    attempts_in, grown, lemma_attempts_in_both, CpuidResult, Event, Hardware, Instruction,
    Processor, Target, Width,
};
use crate::invoker::{
    ceiling, drew, drew_all, exhausted, gave_up_after, lemma_draw, lemma_drew_all_grows,
    lemma_drew_all_hits, lemma_drew_grows, lemma_drew_none, lemma_drew_one_more,
    lemma_failure_at_ceiling, lemma_gave_up_grows, lemma_success_within_ceiling, retry,
};
use crate::script::{drawn, filled_from, Script};

verus! {

/// Somewhere in `trace`, detection of `kind` has found it usable.
pub open spec fn vouched(kind: Instruction, target: Target, trace: Seq<Event>) -> bool {
    exists|from: int, to: int|
        0 <= from <= to <= trace.len() && #[trigger] detected(
            kind,
            target,
            trace.take(from),
            trace.take(to),
            true,
        )
}

/// What was found once stays found, whatever is asked of the processor later.
pub proof fn lemma_vouched_for_good(
    kind: Instruction,
    target: Target,
    trace: Seq<Event>,
    later: Seq<Event>,
)
    requires
        vouched(kind, target, trace),
        grown(trace, later),
    ensures
        vouched(kind, target, later),
{
    let (from, to) = choose|from: int, to: int|
        0 <= from <= to <= trace.len() && #[trigger] detected(
            kind,
            target,
            trace.take(from),
            trace.take(to),
            true,
        );
    assert(later.take(from) =~= trace.take(from));
    assert(later.take(to) =~= trace.take(to));
}

/// A successful detection is found in the trace that it leaves.
pub proof fn lemma_detected_vouches(
    kind: Instruction,
    target: Target,
    before: Seq<Event>,
    after: Seq<Event>,
)
    requires
        detected(kind, target, before, after, true),
    ensures
        vouched(kind, target, after),
{
    let (id, features, extended) = choose|
        id: CpuidResult,
        features: CpuidResult,
        extended: CpuidResult,
    |
        after == before + #[trigger] queries(kind, target, id, features, extended)
            && available(kind, target, id, features, extended);
    assert(after.take(before.len() as int) =~= before);
    assert(after.take(after.len() as int) =~= after);
}

/// A 16-bit draw as the trace records it.
pub open spec fn widened16(r: Result<u16, ErrorCode>) -> Result<u64, ErrorCode> {
    match r {
        Ok(word) => Ok(word as u64),
        Err(e) => Err(e),
    }
}

/// A 32-bit draw as the trace records it.
pub open spec fn widened32(r: Result<u32, ErrorCode>) -> Result<u64, ErrorCode> {
    match r {
        Ok(word) => Ok(word as u64),
        Err(e) => Err(e),
    }
}

/// The 64-bit word made of the 32-bit words `high` and `low`.
pub open spec fn joined(high: u64, low: u64) -> u64 {
    (high << 32) | low
}

/// A 64-bit draw on a target without the 64-bit form took the trace from
/// `before` to `after` and produced `word`: two 32-bit draws gave its high
/// half and then its low half.
pub open spec fn drew_halves(
    kind: Instruction,
    before: Seq<Event>,
    after: Seq<Event>,
    word: u64,
) -> bool {
    exists|high: u64, low: u64|
        high <= u32::MAX && low <= u32::MAX && word == joined(high, low) && #[trigger] drew_all(
            kind,
            Width::W32,
            before,
            after,
            halves(high, low),
        )
}

/// The two 32-bit words of a 64-bit draw, in the order of drawing.
pub open spec fn halves(high: u64, low: u64) -> Seq<u64> {
    Seq::empty().push(high).push(low)
}

/// A 64-bit draw on a target without the 64-bit form failed: the draw of the
/// high half gave up, or that of the low half did.
pub open spec fn lost_half(kind: Instruction, before: Seq<Event>, after: Seq<Event>) -> bool {
    exists|halves: Seq<u64>|
        halves.len() <= 1 && #[trigger] gave_up_after(kind, Width::W32, before, after, halves)
}

/// What a 64-bit draw adds to the trace `before`, and what it returns: one
/// draw of the 64-bit form where the target has it, and otherwise two 32-bit
/// draws, of which the first that gives up fails the whole.
pub open spec fn drew64(
    kind: Instruction,
    wide: bool,
    before: Seq<Event>,
    after: Seq<Event>,
    r: Result<u64, ErrorCode>,
) -> bool {
    if wide {
        drew(kind, Width::W64, before, after, r)
    } else {
        match r {
            Ok(word) => drew_halves(kind, before, after, word),
            Err(e) => e == ErrorCode::HardwareFailure && lost_half(kind, before, after),
        }
    }
}

/// A 64-bit draw of `kind` on a processor with the answers `script` returned
/// `r` and left the answers `after`: it is one draw where the target has the
/// 64-bit form, and otherwise a run of two 32-bit draws, which give the high
/// and the low half.
pub open spec fn drawn64(
    script: Option<Script>,
    kind: Instruction,
    wide: bool,
    r: Result<u64, ErrorCode>,
    after: Option<Script>,
) -> bool {
    script matches Some(s) ==> if wide {
        r == s.draw(kind, Width::W64) && after == Some(s.after_draw(kind))
    } else {
        let run = s.run(kind, Width::W32, 2);
        &&& r == if run.failed {
            Err::<u64, ErrorCode>(ErrorCode::HardwareFailure)
        } else {
            Ok::<u64, ErrorCode>(joined(run.words[0], run.words[1]))
        }
        &&& after == Some(run.rest)
    }
}

/// A 64-bit draw only adds to the trace.
pub proof fn lemma_drew64_grows(
    kind: Instruction,
    wide: bool,
    before: Seq<Event>,
    after: Seq<Event>,
    r: Result<u64, ErrorCode>,
)
    requires
        drew64(kind, wide, before, after, r),
    ensures
        grown(before, after),
{
    if wide {
        lemma_drew_grows(kind, Width::W64, before, after, r);
    } else {
        match r {
            Ok(word) => {
                let (high, low) = choose|high: u64, low: u64|
                    high <= u32::MAX && low <= u32::MAX && word == joined(high, low)
                        && #[trigger] drew_all(
                        kind,
                        Width::W32,
                        before,
                        after,
                        halves(high, low),
                    );
                lemma_drew_all_grows(kind, Width::W32, before, after, halves(high, low));
            },
            Err(_) => {
                let drawn = choose|drawn: Seq<u64>|
                    drawn.len() <= 1 && #[trigger] gave_up_after(
                        kind,
                        Width::W32,
                        before,
                        after,
                        drawn,
                    );
                lemma_gave_up_grows(kind, Width::W32, before, after, drawn);
            },
        }
    }
}

/// A 64-bit draw makes no more attempts than the retry ceiling allows for
/// each of its draws, one or two, and a 64-bit draw that fails has made at
/// least as many attempts as the ceiling allows for one draw.
pub proof fn lemma_drew64_within_ceiling(
    kind: Instruction,
    wide: bool,
    before: Seq<Event>,
    after: Seq<Event>,
    r: Result<u64, ErrorCode>,
)
    requires
        drew64(kind, wide, before, after, r),
    ensures
        r matches Err(e) ==> e == ErrorCode::HardwareFailure,
        1 <= attempts_in(after) - attempts_in(before) <= if wide {
            ceiling(kind)
        } else {
            2 * ceiling(kind)
        },
        r is Err ==> attempts_in(after) - attempts_in(before) >= ceiling(kind),
{
    if wide {
        match r {
            Ok(word) => lemma_success_within_ceiling(kind, Width::W64, before, after, word),
            Err(e) => lemma_failure_at_ceiling(kind, Width::W64, before, after, e),
        }
    } else {
        match r {
            Ok(word) => {
                let (high, low) = choose|high: u64, low: u64|
                    high <= u32::MAX && low <= u32::MAX && word == joined(high, low)
                        && #[trigger] drew_all(
                        kind,
                        Width::W32,
                        before,
                        after,
                        halves(high, low),
                    );
                lemma_drew_all_hits(kind, Width::W32, before, after, halves(high, low));
            },
            Err(_) => {
                let drawn = choose|drawn: Seq<u64>|
                    drawn.len() <= 1 && #[trigger] gave_up_after(
                        kind,
                        Width::W32,
                        before,
                        after,
                        drawn,
                    );
                let mid = choose|mid: Seq<Event>| #[trigger]
                    drew_all(kind, Width::W32, before, mid, drawn) && after == mid + exhausted(
                        kind,
                        Width::W32,
                    );
                lemma_drew_all_hits(kind, Width::W32, before, mid, drawn);
                lemma_draw(kind, Width::W32, (ceiling(kind) - 1) as nat, None);
                lemma_attempts_in_both(mid, exhausted(kind, Width::W32));
                assert(drawn.len() * ceiling(kind) <= ceiling(kind)) by (nonlinear_arith)
                    requires
                        drawn.len() <= 1,
                ;
            },
        }
    }
}

/// Draws one 16-bit word of `kind`.
pub fn next_u16<H: Hardware>(cpu: &mut Processor<H>, kind: Instruction) -> (r: Result<
    u16,
    ErrorCode,
>)
    ensures
        drew(kind, Width::W16, old(cpu).trace(), final(cpu).trace(), widened16(r)),
        final(cpu).target() == old(cpu).target(),
        drawn(old(cpu).script(), kind, Width::W16, widened16(r), final(cpu).script()),
        vouched(kind, old(cpu).target(), old(cpu).trace()) ==> vouched(
            kind,
            final(cpu).target(),
            final(cpu).trace(),
        ),
{
    let drawn = retry(cpu, kind, Width::W16);
    proof {
        lemma_drew_grows(kind, Width::W16, old(cpu).trace(), cpu.trace(), drawn);
        if vouched(kind, old(cpu).target(), old(cpu).trace()) {
            lemma_vouched_for_good(kind, cpu.target(), old(cpu).trace(), cpu.trace());
        }
    }
    match drawn {
        Ok(word) => Ok(word as u16),
        Err(e) => Err(e),
    }
}

/// Draws one 32-bit word of `kind`.
pub fn next_u32<H: Hardware>(cpu: &mut Processor<H>, kind: Instruction) -> (r: Result<
    u32,
    ErrorCode,
>)
    ensures
        drew(kind, Width::W32, old(cpu).trace(), final(cpu).trace(), widened32(r)),
        final(cpu).target() == old(cpu).target(),
        drawn(old(cpu).script(), kind, Width::W32, widened32(r), final(cpu).script()),
        vouched(kind, old(cpu).target(), old(cpu).trace()) ==> vouched(
            kind,
            final(cpu).target(),
            final(cpu).trace(),
        ),
{
    let drawn = retry(cpu, kind, Width::W32);
    proof {
        lemma_drew_grows(kind, Width::W32, old(cpu).trace(), cpu.trace(), drawn);
        if vouched(kind, old(cpu).target(), old(cpu).trace()) {
            lemma_vouched_for_good(kind, cpu.target(), old(cpu).trace(), cpu.trace());
        }
    }
    match drawn {
        Ok(word) => Ok(word as u32),
        Err(e) => Err(e),
    }
}

/// The two 32-bit draws of a 64-bit word, the high half first.
fn next_halves<H: Hardware>(cpu: &mut Processor<H>, kind: Instruction) -> (r: Result<
    u64,
    ErrorCode,
>)
    ensures
        drew64(kind, false, old(cpu).trace(), final(cpu).trace(), r),
        final(cpu).target() == old(cpu).target(),
        drawn64(old(cpu).script(), kind, false, r, final(cpu).script()),
{
    let ghost start = cpu.trace();
    proof {
        if let Some(s) = old(cpu).script() {
            reveal_with_fuel(Script::run, 3);
            assert(s.run(kind, Width::W32, 0).rest == s);
        }
    }
    proof {
        lemma_drew_none(kind, Width::W32, start);
    }
    let high: u64 = match retry(cpu, kind, Width::W32) {
        Ok(word) => word,
        Err(e) => {
            proof {
                assert(gave_up_after(kind, Width::W32, start, cpu.trace(), Seq::<u64>::empty()));
            }
            return Err(e);
        },
    };
    let ghost between = cpu.trace();
    proof {
        lemma_drew_one_more(kind, Width::W32, start, start, between, Seq::empty(), high);
    }
    let low: u64 = match retry(cpu, kind, Width::W32) {
        Ok(word) => word,
        Err(e) => {
            proof {
                assert(gave_up_after(
                    kind,
                    Width::W32,
                    start,
                    cpu.trace(),
                    Seq::<u64>::empty().push(high),
                ));
            }
            return Err(e);
        },
    };
    proof {
        lemma_drew_one_more(
            kind,
            Width::W32,
            start,
            between,
            cpu.trace(),
            Seq::empty().push(high),
            low,
        );
        assert(drew_all(kind, Width::W32, start, cpu.trace(), halves(high, low)));
    }
    Ok((high << 32) | low)
}

/// Draws one 64-bit word of `kind`. Where the target has no 64-bit form, the
/// word is made of two 32-bit draws, the high half first.
pub fn next_u64<H: Hardware>(cpu: &mut Processor<H>, kind: Instruction) -> (r: Result<
    u64,
    ErrorCode,
>)
    ensures
        drew64(kind, old(cpu).target().wide, old(cpu).trace(), final(cpu).trace(), r),
        final(cpu).target() == old(cpu).target(),
        drawn64(old(cpu).script(), kind, old(cpu).target().wide, r, final(cpu).script()),
        vouched(kind, old(cpu).target(), old(cpu).trace()) ==> vouched(
            kind,
            final(cpu).target(),
            final(cpu).trace(),
        ),
{
    let target = cpu.build();
    let r = if target.wide {
        retry(cpu, kind, Width::W64)
    } else {
        next_halves(cpu, kind)
    };
    proof {
        lemma_drew64_grows(kind, target.wide, old(cpu).trace(), cpu.trace(), r);
        if vouched(kind, old(cpu).target(), old(cpu).trace()) {
            lemma_vouched_for_good(kind, cpu.target(), old(cpu).trace(), cpu.trace());
        }
    }
    r
}

/// What a fill does and returns, wherever the buffer lies in memory: it is a
/// fill for some distance from the start of the buffer to the next word
/// boundary.
pub open spec fn filled_in_place(
    kind: Instruction,
    width: Width,
    before: Seq<Event>,
    after: Seq<Event>,
    dest_before: Seq<u8>,
    dest_after: Seq<u8>,
    r: Result<(), ErrorCode>,
    script_before: Option<Script>,
    script_after: Option<Script>,
) -> bool {
    exists|lead: nat| #[trigger]
        filled(kind, width, before, after, dest_before, dest_after, lead, r) && filled_from(
            script_before,
            kind,
            width,
            dest_before,
            dest_after,
            lead,
            r,
            script_after,
        )
}

/// The distance from the start of `dest` to the next address that is a
/// multiple of `align`, as `align_offset` of std gives it for the pointer of
/// `as_ptr`. It depends on where the buffer lies, so nothing is said of it.
#[verifier::external_body]
fn lead_of(dest: &[u8], align: usize) -> (lead: usize)
    requires
        align == 4 || align == 8,
{
    dest.as_ptr().align_offset(align)
}

/// Fills `dest` from native words of `kind`, cut at the word boundaries of
/// the place where `dest` lies.
pub fn fill_bytes<H: Hardware>(
    cpu: &mut Processor<H>,
    kind: Instruction,
    dest: &mut [u8],
) -> (r: Result<(), ErrorCode>)
    ensures
        filled_in_place(
            kind,
            old(cpu).target().native(),
            old(cpu).trace(),
            final(cpu).trace(),
            old(dest)@,
            final(dest)@,
            r,
            old(cpu).script(),
            final(cpu).script(),
        ),
        final(cpu).target() == old(cpu).target(),
        vouched(kind, old(cpu).target(), old(cpu).trace()) ==> vouched(
            kind,
            final(cpu).target(),
            final(cpu).trace(),
        ),
{
    let target = cpu.build();
    let (_, w) = native_word(target.wide);
    let lead = lead_of(dest, w);
    let r = fill(cpu, kind, dest, lead);
    proof {
        lemma_filled_grows(
            kind,
            target.native(),
            old(cpu).trace(),
            cpu.trace(),
            old(dest)@,
            dest@,
            lead as nat,
            r,
        );
        if vouched(kind, old(cpu).target(), old(cpu).trace()) {
            lemma_vouched_for_good(kind, cpu.target(), old(cpu).trace(), cpu.trace());
        }
    }
    r
}

/// Construction took `hw`, of which nothing was asked before, with the target
/// that it gives of itself, ran detection of `kind` on it, and made a
/// generator, on the processor `inside`, exactly if detection found the
/// instruction usable.
pub open spec fn made<H: Hardware>(kind: Instruction, hw: H, inside: Option<Processor<H>>) -> bool {
    exists|target: Target, after: Seq<Event>| #[trigger]
        detected(kind, target, Seq::empty(), after, inside is Some) && call_ensures(
            H::build,
            (&hw,),
            target,
        ) && found(
            hw.script(),
            kind,
            target,
            inside is Some,
            match inside {
                Some(cpu) => cpu.script(),
                None => hw.script(),
            },
        ) && (inside is Some ==> inside->0.trace() == after && inside->0.target() == target)
}

/// Takes `hw`, runs detection of `kind` on it, and hands it back where the
/// instruction is usable.
fn admit_hardware<H: Hardware>(hw: H, kind: Instruction) -> (r: Option<Processor<H>>)
    ensures
        made(kind, hw, r),
        r matches Some(cpu) ==> vouched(kind, cpu.target(), cpu.trace()),
{
    let mut cpu = Processor::new(hw);
    let ghost target = cpu.target();
    if is_available(&mut cpu, kind) {
        let ghost after = cpu.trace();
        proof {
            lemma_detected_vouches(kind, target, Seq::empty(), after);
        }
        let r = Some(cpu);
        proof {
            assert(detected(kind, target, Seq::empty(), after, r is Some));
        }
        r
    } else {
        let r = None;
        proof {
            assert(detected(kind, target, Seq::empty(), cpu.trace(), r is Some));
        }
        r
    }
}

/// A generator of random words, by the random-number instruction.
///
/// It is a viable replacement of any generator, yet nobody has audited the
/// hardware behind it.
pub struct RdRand<H: Hardware> {
    cpu: Processor<H>,
}

impl<H: Hardware + Copy> Clone for RdRand<H> {
    fn clone(&self) -> (copy: Self)
        ensures
            copy == *self,
    {
        RdRand { cpu: self.cpu }
    }
}

impl<H: Hardware + Copy> Copy for RdRand<H> {

}

impl<H: Hardware> RdRand<H> {
    /// The processor of this generator.
    pub closed spec fn processor(self) -> Processor<H> {
        self.cpu
    }

    /// What holds of every generator: detection has found the instruction
    /// usable on its processor.
    pub open spec fn wf(self) -> bool {
        vouched(Instruction::RdRand, self.processor().target(), self.processor().trace())
    }

    /// Makes a generator on `hw` if detection finds the instruction usable
    /// there, and fails with `UnsupportedInstruction` if it does not.
    pub fn new(hw: H) -> (r: Result<Self, ErrorCode>)
        ensures
            made(
                Instruction::RdRand,
                hw,
                match r {
                    Ok(it) => Some(it.processor()),
                    Err(_) => None,
                },
            ),
            r matches Ok(it) ==> it.wf(),
            r matches Err(e) ==> e == ErrorCode::UnsupportedInstruction,
    {
        match admit_hardware(hw, Instruction::RdRand) {
            Some(own) => Ok(RdRand { cpu: own }),
            None => Err(ErrorCode::UnsupportedInstruction),
        }
    }

    /// Makes a generator on `cpu` without running detection. The caller shows
    /// that detection has found the instruction usable on `cpu` before.
    pub fn new_unchecked(cpu: Processor<H>) -> (it: Self)
        requires
            vouched(Instruction::RdRand, cpu.target(), cpu.trace()),
        ensures
            it.processor() == cpu,
            it.wf(),
    {
        RdRand { cpu }
    }

    /// The processor of this generator.
    pub fn hardware(&self) -> (hw: &H)
        ensures
            *hw == self.processor().raw(),
    {
        self.cpu.hardware()
    }

    /// Generates one random `u16`. The instruction is tried again while it
    /// produces nothing; when the retry ceiling is reached, the call fails
    /// with `HardwareFailure`.
    pub fn try_next_u16(&mut self) -> (r: Result<u16, ErrorCode>)
        ensures
            drew(
                Instruction::RdRand,
                Width::W16,
                old(self).processor().trace(),
                final(self).processor().trace(),
                widened16(r),
            ),
            drawn(
                old(self).processor().script(),
                Instruction::RdRand,
                Width::W16,
                widened16(r),
                final(self).processor().script(),
            ),
            final(self).processor().target() == old(self).processor().target(),
            old(self).wf() ==> final(self).wf(),
    {
        next_u16(&mut self.cpu, Instruction::RdRand)
    }

    /// Generates one random `u32`, as `try_next_u16` does a `u16`.
    pub fn try_next_u32(&mut self) -> (r: Result<u32, ErrorCode>)
        ensures
            drew(
                Instruction::RdRand,
                Width::W32,
                old(self).processor().trace(),
                final(self).processor().trace(),
                widened32(r),
            ),
            drawn(
                old(self).processor().script(),
                Instruction::RdRand,
                Width::W32,
                widened32(r),
                final(self).processor().script(),
            ),
            final(self).processor().target() == old(self).processor().target(),
            old(self).wf() ==> final(self).wf(),
    {
        next_u32(&mut self.cpu, Instruction::RdRand)
    }

    /// Generates one random `u64`. Where the target has no 64-bit form of the
    /// instruction, the word is made of two 32-bit draws.
    pub fn try_next_u64(&mut self) -> (r: Result<u64, ErrorCode>)
        ensures
            drew64(
                Instruction::RdRand,
                old(self).processor().target().wide,
                old(self).processor().trace(),
                final(self).processor().trace(),
                r,
            ),
            drawn64(
                old(self).processor().script(),
                Instruction::RdRand,
                old(self).processor().target().wide,
                r,
                final(self).processor().script(),
            ),
            final(self).processor().target() == old(self).processor().target(),
            old(self).wf() ==> final(self).wf(),
    {
        next_u64(&mut self.cpu, Instruction::RdRand)
    }

    /// Fills `dest` with random bytes. A draw that gives up ends the fill
    /// with `HardwareFailure`; what was written until then stays.
    pub fn try_fill_bytes(&mut self, dest: &mut [u8]) -> (r: Result<(), ErrorCode>)
        ensures
            filled_in_place(
                Instruction::RdRand,
                old(self).processor().target().native(),
                old(self).processor().trace(),
                final(self).processor().trace(),
                old(dest)@,
                final(dest)@,
                r,
                old(self).processor().script(),
                final(self).processor().script(),
            ),
            final(self).processor().target() == old(self).processor().target(),
            old(self).wf() ==> final(self).wf(),
    {
        fill_bytes(&mut self.cpu, Instruction::RdRand, dest)
    }
}

/// A generator of random words, by the random-seed instruction.
///
/// Its words are meant to seed other generators; it is slower than `RdRand`
/// and gives up later.
pub struct RdSeed<H: Hardware> {
    cpu: Processor<H>,
}

impl<H: Hardware + Copy> Clone for RdSeed<H> {
    fn clone(&self) -> (copy: Self)
        ensures
            copy == *self,
    {
        RdSeed { cpu: self.cpu }
    }
}

impl<H: Hardware + Copy> Copy for RdSeed<H> {

}

impl<H: Hardware> RdSeed<H> {
    /// The processor of this generator.
    pub closed spec fn processor(self) -> Processor<H> {
        self.cpu
    }

    /// What holds of every generator: detection has found the instruction
    /// usable on its processor.
    pub open spec fn wf(self) -> bool {
        vouched(Instruction::RdSeed, self.processor().target(), self.processor().trace())
    }

    /// Makes a generator on `hw` if detection finds the instruction usable
    /// there, and fails with `UnsupportedInstruction` if it does not.
    pub fn new(hw: H) -> (r: Result<Self, ErrorCode>)
        ensures
            made(
                Instruction::RdSeed,
                hw,
                match r {
                    Ok(it) => Some(it.processor()),
                    Err(_) => None,
                },
            ),
            r matches Ok(it) ==> it.wf(),
            r matches Err(e) ==> e == ErrorCode::UnsupportedInstruction,
    {
        match admit_hardware(hw, Instruction::RdSeed) {
            Some(own) => Ok(RdSeed { cpu: own }),
            None => Err(ErrorCode::UnsupportedInstruction),
        }
    }

    /// Makes a generator on `cpu` without running detection. The caller shows
    /// that detection has found the instruction usable on `cpu` before.
    pub fn new_unchecked(cpu: Processor<H>) -> (it: Self)
        requires
            vouched(Instruction::RdSeed, cpu.target(), cpu.trace()),
        ensures
            it.processor() == cpu,
            it.wf(),
    {
        RdSeed { cpu }
    }

    /// The processor of this generator.
    pub fn hardware(&self) -> (hw: &H)
        ensures
            *hw == self.processor().raw(),
    {
        self.cpu.hardware()
    }

    /// Generates one `u16` of seed. The instruction is tried again while it
    /// produces nothing; when the retry ceiling is reached, the call fails
    /// with `HardwareFailure`.
    pub fn try_next_u16(&mut self) -> (r: Result<u16, ErrorCode>)
        ensures
            drew(
                Instruction::RdSeed,
                Width::W16,
                old(self).processor().trace(),
                final(self).processor().trace(),
                widened16(r),
            ),
            drawn(
                old(self).processor().script(),
                Instruction::RdSeed,
                Width::W16,
                widened16(r),
                final(self).processor().script(),
            ),
            final(self).processor().target() == old(self).processor().target(),
            old(self).wf() ==> final(self).wf(),
    {
        next_u16(&mut self.cpu, Instruction::RdSeed)
    }

    /// Generates one `u32` of seed, as `try_next_u16` does a `u16`.
    pub fn try_next_u32(&mut self) -> (r: Result<u32, ErrorCode>)
        ensures
            drew(
                Instruction::RdSeed,
                Width::W32,
                old(self).processor().trace(),
                final(self).processor().trace(),
                widened32(r),
            ),
            drawn(
                old(self).processor().script(),
                Instruction::RdSeed,
                Width::W32,
                widened32(r),
                final(self).processor().script(),
            ),
            final(self).processor().target() == old(self).processor().target(),
            old(self).wf() ==> final(self).wf(),
    {
        next_u32(&mut self.cpu, Instruction::RdSeed)
    }

    /// Generates one `u64` of seed. Where the target has no 64-bit form of the
    /// instruction, the word is made of two 32-bit draws.
    pub fn try_next_u64(&mut self) -> (r: Result<u64, ErrorCode>)
        ensures
            drew64(
                Instruction::RdSeed,
                old(self).processor().target().wide,
                old(self).processor().trace(),
                final(self).processor().trace(),
                r,
            ),
            drawn64(
                old(self).processor().script(),
                Instruction::RdSeed,
                old(self).processor().target().wide,
                r,
                final(self).processor().script(),
            ),
            final(self).processor().target() == old(self).processor().target(),
            old(self).wf() ==> final(self).wf(),
    {
        next_u64(&mut self.cpu, Instruction::RdSeed)
    }

    /// Fills `dest` with bytes of seed. A draw that gives up ends the fill
    /// with `HardwareFailure`; what was written until then stays.
    pub fn try_fill_bytes(&mut self, dest: &mut [u8]) -> (r: Result<(), ErrorCode>)
        ensures
            filled_in_place(
                Instruction::RdSeed,
                old(self).processor().target().native(),
                old(self).processor().trace(),
                final(self).processor().trace(),
                old(dest)@,
                final(dest)@,
                r,
                old(self).processor().script(),
                final(self).processor().script(),
            ),
            final(self).processor().target() == old(self).processor().target(),
            old(self).wf() ==> final(self).wf(),
    {
        fill_bytes(&mut self.cpu, Instruction::RdSeed, dest)
    }
}

} // verus!
