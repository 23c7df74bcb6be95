//! The processor as the library sees it: identification queries, single
//! attempts of the two instructions, and the record of what was asked of it.
use vstd::prelude::*;
use crate::script::{answered, produced, Script};

verus! {

/// The four words that one identification query returns.
#[derive(Debug, Copy, Clone, PartialEq, Eq, Structural)]
pub struct CpuidResult {
    pub eax: u32,
    pub ebx: u32,
    pub ecx: u32,
    pub edx: u32,
}

/// The two instructions.
#[derive(Debug, Copy, Clone, PartialEq, Eq, Structural)]
pub enum Instruction {
    /// The random-number instruction.
    RdRand,
    /// The random-seed instruction.
    RdSeed,
}

/// The width of the word that one attempt produces.
#[derive(Debug, Copy, Clone, PartialEq, Eq, Structural)]
pub enum Width {
    W16,
    W32,
    W64,
}

impl Width {
    /// The number of bytes in a word of this width.
    pub open spec fn bytes(self) -> nat {
        match self {
            Width::W16 => 2,
            Width::W32 => 4,
            Width::W64 => 8,
        }
    }
}

/// What is known of the target when the program is built.
#[derive(Debug, Copy, Clone, PartialEq, Eq, Structural)]
pub struct Target {
    /// Identification queries may be executed.
    pub cpuid: bool,
    /// Every processor that the build admits has the random-number instruction.
    pub rdrand: bool,
    /// Every processor that the build admits has the random-seed instruction.
    pub rdseed: bool,
    /// The instructions have a 64-bit form.
    pub wide: bool,
}

impl Target {
    /// Whether the build alone promises the instruction.
    pub open spec fn promises(self, kind: Instruction) -> bool {
        match kind {
            Instruction::RdRand => self.rdrand,
            Instruction::RdSeed => self.rdseed,
        }
    }

    /// The width of the widest word that one attempt produces.
    pub open spec fn native(self) -> Width {
        if self.wide {
            Width::W64
        } else {
            Width::W32
        }
    }

    /// Whether the build alone promises the instruction.
    pub fn guaranteed(&self, kind: Instruction) -> (r: bool)
        ensures
            r == self.promises(kind),
    {
        match kind {
            Instruction::RdRand => self.rdrand,
            Instruction::RdSeed => self.rdseed,
        }
    }
}

/// One thing that was asked of the processor, with what it answered.
#[derive(Debug, Copy, Clone, PartialEq, Eq, Structural)]
pub enum Event {
    /// An identification query of `leaf`.
    Cpuid { leaf: u32, answer: CpuidResult },
    /// One attempt of an instruction; `outcome` is the word it produced, or
    /// `None` where it produced none.
    Step { instruction: Instruction, width: Width, outcome: Option<u64> },
    /// A spin-wait hint.
    Pause,
}

/// What the library needs of a processor: its identification query, single
/// attempts of the two instructions in their three widths, the spin-wait
/// hint, and what the build knows of it. An attempt returns the word that the
/// instruction produced, or `None` where it produced none this time.
///
/// Nothing is asked of a processor but that it answers. One whose answers are
/// fixed in advance says so by its `script`, and then answers by it.
pub trait Hardware {
    /// The answers of this processor, where they are fixed in advance.
    open spec fn script(&self) -> Option<Script> {
        None
    }

    /// What the build knows of this processor.
    fn build(&self) -> Target;

    /// Executes one identification query.
    fn cpuid(&mut self, leaf: u32) -> (answer: CpuidResult)
        ensures
            answered(old(self).script(), leaf, answer, final(self).script()),
    ;

    /// Executes the 16-bit form of `kind` once.
    fn step16(&mut self, kind: Instruction) -> (word: Option<u16>)
        ensures
            produced(old(self).script(), Width::W16, widen16(word), final(self).script()),
    ;

    /// Executes the 32-bit form of `kind` once.
    fn step32(&mut self, kind: Instruction) -> (word: Option<u32>)
        ensures
            produced(old(self).script(), Width::W32, widen32(word), final(self).script()),
    ;

    /// Executes the 64-bit form of `kind` once.
    fn step64(&mut self, kind: Instruction) -> (word: Option<u64>)
        ensures
            produced(old(self).script(), Width::W64, word, final(self).script()),
    ;

    /// Executes one spin-wait hint.
    fn pause(&mut self)
        ensures
            final(self).script() == old(self).script(),
    ;
}

/// A processor together with the record of what was asked of it. Every call
/// is added to the trace, with its answer; nothing else changes the trace,
/// and the target is the one that the processor gave when it was taken.
pub struct Processor<H: Hardware> {
    raw: H,
    target: Target,
    trace: Ghost<Seq<Event>>,
}

impl<H: Hardware + Copy> Clone for Processor<H> {
    fn clone(&self) -> (copy: Self)
        ensures
            copy == *self,
    {
        Processor { raw: self.raw, target: self.target, trace: self.trace }
    }
}

impl<H: Hardware + Copy> Copy for Processor<H> {

}

impl<H: Hardware> Processor<H> {
    /// Everything that was asked of this processor so far, oldest first.
    pub closed spec fn trace(&self) -> Seq<Event> {
        self.trace@
    }

    /// What the build knows of this processor.
    pub closed spec fn target(&self) -> Target {
        self.target
    }

    /// The processor itself.
    pub closed spec fn raw(&self) -> H {
        self.raw
    }

    /// The answers of this processor, where they are fixed in advance.
    pub open spec fn script(&self) -> Option<Script> {
        self.raw().script()
    }

    /// Takes `raw`, of which nothing was asked yet, with the target that it
    /// gives of itself.
    pub fn new(raw: H) -> (cpu: Self)
        ensures
            cpu.raw() == raw,
            cpu.trace() == Seq::<Event>::empty(),
            call_ensures(H::build, (&raw,), cpu.target()),
    {
        let target = raw.build();
        Processor { raw, target, trace: Ghost(Seq::empty()) }
    }

    /// What the build knows of this processor.
    pub fn build(&self) -> (t: Target)
        ensures
            t == self.target(),
    {
        self.target
    }

    /// The processor itself.
    pub fn hardware(&self) -> (raw: &H)
        ensures
            *raw == self.raw(),
    {
        &self.raw
    }

    /// Executes one identification query.
    pub fn cpuid(&mut self, leaf: u32) -> (answer: CpuidResult)
        ensures
            final(self).trace() == old(self).trace().push(Event::Cpuid { leaf, answer }),
            final(self).target() == old(self).target(),
            answered(old(self).script(), leaf, answer, final(self).script()),
    {
        let answer = self.raw.cpuid(leaf);
        self.trace = Ghost(self.trace@.push(Event::Cpuid { leaf, answer }));
        answer
    }

    /// Executes the 16-bit form of `kind` once.
    pub fn step16(&mut self, kind: Instruction) -> (word: Option<u16>)
        ensures
            final(self).trace() == old(self).trace().push(attempt(kind, Width::W16, widen16(word))),
            final(self).target() == old(self).target(),
            produced(old(self).script(), Width::W16, widen16(word), final(self).script()),
    {
        let word = self.raw.step16(kind);
        self.trace = Ghost(self.trace@.push(attempt(kind, Width::W16, widen16(word))));
        word
    }

    /// Executes the 32-bit form of `kind` once.
    pub fn step32(&mut self, kind: Instruction) -> (word: Option<u32>)
        ensures
            final(self).trace() == old(self).trace().push(attempt(kind, Width::W32, widen32(word))),
            final(self).target() == old(self).target(),
            produced(old(self).script(), Width::W32, widen32(word), final(self).script()),
    {
        let word = self.raw.step32(kind);
        self.trace = Ghost(self.trace@.push(attempt(kind, Width::W32, widen32(word))));
        word
    }

    /// Executes the 64-bit form of `kind` once.
    pub fn step64(&mut self, kind: Instruction) -> (word: Option<u64>)
        ensures
            final(self).trace() == old(self).trace().push(attempt(kind, Width::W64, word)),
            final(self).target() == old(self).target(),
            produced(old(self).script(), Width::W64, word, final(self).script()),
    {
        let word = self.raw.step64(kind);
        self.trace = Ghost(self.trace@.push(attempt(kind, Width::W64, word)));
        word
    }

    /// Executes one spin-wait hint.
    pub fn pause(&mut self)
        ensures
            final(self).trace() == old(self).trace().push(Event::Pause),
            final(self).target() == old(self).target(),
            final(self).script() == old(self).script(),
    {
        self.raw.pause();
        self.trace = Ghost(self.trace@.push(Event::Pause));
    }
}

/// The trace `after` is the trace `before` with more at its end.
pub open spec fn grown(before: Seq<Event>, after: Seq<Event>) -> bool {
    before.len() <= after.len() && after.take(before.len() as int) == before
}

/// A trace that has something added at its end has grown.
pub proof fn lemma_grown_by(before: Seq<Event>, more: Seq<Event>)
    ensures
        grown(before, before + more),
{
    assert((before + more).take(before.len() as int) =~= before);
}

/// What has grown twice has grown.
pub proof fn lemma_grown_twice(first: Seq<Event>, second: Seq<Event>, third: Seq<Event>)
    requires
        grown(first, second),
        grown(second, third),
    ensures
        grown(first, third),
{
    assert(third.take(first.len() as int) =~= second.take(first.len() as int));
}

/// The number of attempts of an instruction in `events`.
pub open spec fn attempts_in(events: Seq<Event>) -> nat
    decreases events.len(),
{
    if events.len() == 0 {
        0
    } else {
        attempts_in(events.drop_last()) + if events.last() is Step {
            1nat
        } else {
            0nat
        }
    }
}

/// The words that the attempts in `events` produced, oldest first.
pub open spec fn hits(events: Seq<Event>) -> Seq<u64>
    decreases events.len(),
{
    if events.len() == 0 {
        Seq::empty()
    } else {
        match events.last() {
            Event::Step { outcome: Some(word), .. } => hits(events.drop_last()).push(word),
            _ => hits(events.drop_last()),
        }
    }
}

/// One more event adds an attempt if it is one, and a word if it produced one.
pub proof fn lemma_one_more_event(events: Seq<Event>, event: Event)
    ensures
        attempts_in(events.push(event)) == attempts_in(events) + if event is Step {
            1nat
        } else {
            0nat
        },
        hits(events.push(event)) == match event {
            Event::Step { outcome: Some(word), .. } => hits(events).push(word),
            _ => hits(events),
        },
{
    assert(events.push(event).drop_last() =~= events);
    assert(events.push(event).last() == event);
}

/// The attempts of two records in a row are those of the first and those of
/// the second.
pub proof fn lemma_attempts_in_both(first: Seq<Event>, second: Seq<Event>)
    ensures
        attempts_in(first + second) == attempts_in(first) + attempts_in(second),
    decreases second.len(),
{
    if second.len() == 0 {
        assert(first + second =~= first);
    } else {
        lemma_attempts_in_both(first, second.drop_last());
        assert((first + second).drop_last() =~= first + second.drop_last());
    }
}

/// The words of two records in a row are those of the first and then those
/// of the second.
pub proof fn lemma_hits_of_both(first: Seq<Event>, second: Seq<Event>)
    ensures
        hits(first + second) == hits(first) + hits(second),
    decreases second.len(),
{
    if second.len() == 0 {
        assert(first + second =~= first);
        assert(hits(first) + hits(second) =~= hits(first));
    } else {
        lemma_hits_of_both(first, second.drop_last());
        assert((first + second).drop_last() =~= first + second.drop_last());
        assert(hits(first + second) =~= hits(first) + hits(second));
    }
}

/// The record of one attempt.
pub open spec fn attempt(kind: Instruction, width: Width, outcome: Option<u64>) -> Event {
    Event::Step { instruction: kind, width, outcome }
}

/// A 16-bit outcome as the trace records it.
pub open spec fn widen16(word: Option<u16>) -> Option<u64> {
    match word {
        Some(w) => Some(w as u64),
        None => None,
    }
}

/// A 32-bit outcome as the trace records it.
pub open spec fn widen32(word: Option<u32>) -> Option<u64> {
    match word {
        Some(w) => Some(w as u64),
        None => None,
    }
}

} // verus!
