//! A processor that answers from a script and keeps a log, for trying the
//! library without the instructions.
use vstd::prelude::*;
use crate::hardware::{
    attempt, widen16, widen32, CpuidResult, Event, Hardware, Instruction, Target, Width,
};
use crate::script::{cut_outcome, Script};

verus! {

/// A processor whose answers are fixed in advance. Its identification
/// queries answer with the leaves it was made with; each attempt of an
/// instruction takes the next outcome of the script, cut to the width asked
/// for, and produces nothing once the script is used up.
pub struct Scripted {
    target: Target,
    id: CpuidResult,
    features: CpuidResult,
    extended: CpuidResult,
    script: Vec<Option<u64>>,
    next: usize,
    log: Vec<Event>,
}

impl Scripted {
    /// Everything that was asked of this processor, oldest first.
    pub closed spec fn asked(&self) -> Seq<Event> {
        self.log@
    }

    /// What the build knows of this processor.
    pub closed spec fn target(&self) -> Target {
        self.target
    }

    /// The number of outcomes that were taken.
    pub closed spec fn taken(&self) -> nat {
        self.next as nat
    }

    /// The answers that this processor has yet to give.
    pub closed spec fn answers(&self) -> Script {
        Script {
            id: self.id,
            features: self.features,
            extended: self.extended,
            pending: if self.next <= self.script@.len() {
                self.script@.skip(self.next as int)
            } else {
                Seq::empty()
            },
        }
    }

    /// One attempt of `kind` in the form of `width` took this processor to
    /// `after` and produced `outcome`.
    pub open spec fn stepped(
        &self,
        after: &Scripted,
        kind: Instruction,
        width: Width,
        outcome: Option<u64>,
    ) -> bool {
        &&& outcome == cut_outcome(width, self.answers().at(0))
        &&& after.answers() == self.answers().skip(1)
        &&& after.taken() == self.taken() + if self.answers().pending.len() > 0 {
            1nat
        } else {
            0nat
        }
        &&& after.asked() == self.asked().push(attempt(kind, width, outcome))
        &&& after.target() == self.target()
    }

    /// A processor of target `target` that answers leaves 0, 1 and 7 with
    /// `id`, `features` and `extended`, and whose attempts follow `script`.
    pub fn new(
        target: Target,
        id: CpuidResult,
        features: CpuidResult,
        extended: CpuidResult,
        script: Vec<Option<u64>>,
    ) -> (it: Scripted)
        ensures
            it.target() == target,
            it.asked() == Seq::<Event>::empty(),
            it.taken() == 0,
            it.answers() == (Script { id, features, extended, pending: script@ }),
    {
        Scripted { target, id, features, extended, script, next: 0, log: Vec::new() }
    }

    /// Everything that was asked of this processor, oldest first.
    pub fn log(&self) -> (log: &Vec<Event>)
        ensures
            log@ == self.asked(),
    {
        &self.log
    }

    /// The number of outcomes of the script that were taken.
    pub fn position(&self) -> (n: usize)
        ensures
            n == self.taken(),
    {
        self.next
    }

    /// Takes the next outcome of the script.
    fn take(&mut self) -> (outcome: Option<u64>)
        ensures
            outcome == old(self).answers().at(0),
            final(self).answers() == old(self).answers().skip(1),
            final(self).taken() == old(self).taken() + if old(self).answers().pending.len() > 0 {
                1nat
            } else {
                0nat
            },
            final(self).asked() == old(self).asked(),
            final(self).target() == old(self).target(),
    {
        if self.next < self.script.len() {
            let outcome = self.script[self.next];
            self.next = self.next + 1;
            assert(self.answers() =~= old(self).answers().skip(1));
            outcome
        } else {
            assert(self.answers() =~= old(self).answers().skip(1));
            None
        }
    }
}

impl Hardware for Scripted {
    open spec fn script(&self) -> Option<Script> {
        Some(self.answers())
    }

    fn build(&self) -> (t: Target)
        ensures
            t == self.target(),
    {
        self.target
    }

    fn cpuid(&mut self, leaf: u32) -> (answer: CpuidResult)
        ensures
            final(self).taken() == old(self).taken(),
            final(self).asked() == old(self).asked().push(Event::Cpuid { leaf, answer }),
            final(self).target() == old(self).target(),
    {
        let answer = if leaf == 0 {
            self.id
        } else if leaf == 1 {
            self.features
        } else if leaf == 7 {
            self.extended
        } else {
            CpuidResult { eax: 0, ebx: 0, ecx: 0, edx: 0 }
        };
        self.log.push(Event::Cpuid { leaf, answer });
        answer
    }

    fn step16(&mut self, kind: Instruction) -> (word: Option<u16>)
        ensures
            old(self).stepped(final(self), kind, Width::W16, widen16(word)),
    {
        let word: Option<u16> = match self.take() {
            Some(w) => Some(#[verifier::truncate] (w as u16)),
            None => None,
        };
        let outcome: Option<u64> = match word {
            Some(w) => Some(w as u64),
            None => None,
        };
        self.log.push(Event::Step { instruction: kind, width: Width::W16, outcome });
        word
    }

    fn step32(&mut self, kind: Instruction) -> (word: Option<u32>)
        ensures
            old(self).stepped(final(self), kind, Width::W32, widen32(word)),
    {
        let word: Option<u32> = match self.take() {
            Some(w) => Some(#[verifier::truncate] (w as u32)),
            None => None,
        };
        let outcome: Option<u64> = match word {
            Some(w) => Some(w as u64),
            None => None,
        };
        self.log.push(Event::Step { instruction: kind, width: Width::W32, outcome });
        word
    }

    fn step64(&mut self, kind: Instruction) -> (word: Option<u64>)
        ensures
            old(self).stepped(final(self), kind, Width::W64, word),
    {
        let word = self.take();
        self.log.push(Event::Step { instruction: kind, width: Width::W64, outcome: word });
        word
    }

    fn pause(&mut self)
        ensures
            final(self).taken() == old(self).taken(),
            final(self).asked() == old(self).asked().push(Event::Pause),
            final(self).target() == old(self).target(),
    {
        self.log.push(Event::Pause);
    }
}

} // verus!
