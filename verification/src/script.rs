//! What a processor does whose answers are fixed in advance.
//!
//! Such a processor is given by the leaves that its identification queries
//! answer and by the outcomes that its attempts still have to take, the next
//! one first. Once the outcomes are used up, every attempt produces nothing.
use vstd::prelude::*;
use crate::errors::ErrorCode;
use crate::hardware::{CpuidResult, Instruction, Width};
use crate::invoker::ceiling;
use crate::layout::{words_needed, written};

verus! {

/// The answers of a processor that are fixed in advance.
#[verifier::ext_equal]
pub struct Script {
    /// What leaf 0 answers.
    pub id: CpuidResult,
    /// What leaf 1 answers.
    pub features: CpuidResult,
    /// What leaf 7 answers.
    pub extended: CpuidResult,
    /// The outcomes that the attempts take, the next one first.
    pub pending: Seq<Option<u64>>,
}

/// What a run of draws leaves: its words, the script behind it, and whether
/// its last draw gave up.
#[verifier::ext_equal]
pub struct Run {
    pub words: Seq<u64>,
    pub rest: Script,
    pub failed: bool,
}

/// `word` cut to `width`.
pub open spec fn cut(width: Width, word: u64) -> u64 {
    match width {
        Width::W16 => (word as u16) as u64,
        Width::W32 => (word as u32) as u64,
        Width::W64 => word,
    }
}

/// An outcome in the form of `width`.
pub open spec fn cut_outcome(width: Width, outcome: Option<u64>) -> Option<u64> {
    match outcome {
        Some(word) => Some(cut(width, word)),
        None => None,
    }
}

impl Script {
    /// What identification query `leaf` answers: every leaf but 0, 1 and 7
    /// is zero.
    pub open spec fn leaf(self, leaf: u32) -> CpuidResult {
        if leaf == 0 {
            self.id
        } else if leaf == 1 {
            self.features
        } else if leaf == 7 {
            self.extended
        } else {
            CpuidResult { eax: 0, ebx: 0, ecx: 0, edx: 0 }
        }
    }

    /// The outcome of the attempt that comes after `i` others.
    pub open spec fn at(self, i: nat) -> Option<u64> {
        if i < self.pending.len() {
            self.pending[i as int]
        } else {
            None
        }
    }

    /// The script after `n` attempts.
    pub open spec fn skip(self, n: nat) -> Script {
        Script {
            pending: if n <= self.pending.len() {
                self.pending.skip(n as int)
            } else {
                Seq::empty()
            },
            ..self
        }
    }

    /// The number of attempts that produce nothing before one produces a
    /// word, counted no further than `budget`.
    pub open spec fn leading_misses(self, budget: nat) -> nat
        decreases budget,
    {
        if budget == 0 || self.at(0) is Some {
            0
        } else {
            1 + self.skip(1).leading_misses((budget - 1) as nat)
        }
    }

    /// What a draw of `kind` in the form of `width` returns: the first word
    /// that an attempt produces, if one does before the retry ceiling is
    /// reached.
    pub open spec fn draw(self, kind: Instruction, width: Width) -> Result<u64, ErrorCode> {
        let n = self.leading_misses(ceiling(kind));
        if n < ceiling(kind) {
            Ok(cut(width, self.at(n).unwrap()))
        } else {
            Err(ErrorCode::HardwareFailure)
        }
    }

    /// The script after a draw of `kind`.
    pub open spec fn after_draw(self, kind: Instruction) -> Script {
        let n = self.leading_misses(ceiling(kind));
        if n < ceiling(kind) {
            self.skip(n + 1)
        } else {
            self.skip(n)
        }
    }

    /// What up to `count` draws of `kind` in the form of `width` leave. The
    /// run ends with the first draw that gives up.
    pub open spec fn run(self, kind: Instruction, width: Width, count: nat) -> Run
        decreases count,
    {
        if count == 0 {
            Run { words: Seq::empty(), rest: self, failed: false }
        } else {
            let earlier = self.run(kind, width, (count - 1) as nat);
            if earlier.failed {
                earlier
            } else {
                match earlier.rest.draw(kind, width) {
                    Ok(word) => Run {
                        words: earlier.words.push(word),
                        rest: earlier.rest.after_draw(kind),
                        failed: false,
                    },
                    Err(_) => Run {
                        words: earlier.words,
                        rest: earlier.rest.after_draw(kind),
                        failed: true,
                    },
                }
            }
        }
    }
}

/// Attempts add up: the script after `a` attempts and then `b` more is the
/// script after `a + b`, and what comes `i` attempts later comes `a + i`
/// attempts from now.
pub proof fn lemma_skip_more(script: Script, a: nat, b: nat)
    ensures
        script.skip(a).skip(b) == script.skip(a + b),
        script.skip(a).at(b) == script.at(a + b),
        script.skip(0) == script,
{
    assert(script.skip(a).skip(b) =~= script.skip(a + b));
    assert(script.skip(0) =~= script);
}

/// Where the next `n` attempts produce nothing, and the one after them
/// produces a word unless the budget is used up by then, `n` attempts produce
/// nothing before one produces a word.
pub proof fn lemma_leading_misses(script: Script, budget: nat, n: nat)
    requires
        n <= budget,
        forall|i: nat| i < n ==> script.at(i) is None,
        n == budget || script.at(n) is Some,
    ensures
        script.leading_misses(budget) == n,
    decreases n,
{
    if n > 0 {
        assert(script.at(0) is None);
        let rest = script.skip(1);
        assert forall|i: nat| i < n - 1 implies rest.at(i) is None by {
            lemma_skip_more(script, 1, i);
            assert(script.at(1 + i) is None);
        }
        lemma_skip_more(script, 1, (n - 1) as nat);
        lemma_leading_misses(rest, (budget - 1) as nat, (n - 1) as nat);
    }
}

/// On a processor whose next `n` attempts produce nothing and whose attempt
/// after them produces `word`, with `n` below the retry ceiling, a draw
/// returns `word` in the form asked for, after `n + 1` attempts.
pub proof fn lemma_draw_after_misses(
    script: Script,
    kind: Instruction,
    width: Width,
    n: nat,
    word: u64,
)
    requires
        n < ceiling(kind),
        forall|i: nat| i < n ==> script.at(i) is None,
        script.at(n) == Some(word),
    ensures
        script.draw(kind, width) == Ok::<u64, ErrorCode>(cut(width, word)),
        script.after_draw(kind) == script.skip(n + 1),
{
    lemma_leading_misses(script, ceiling(kind), n);
}

/// On a processor whose attempts produce nothing, as many of them as the
/// retry ceiling allows, a draw fails with `HardwareFailure` after exactly
/// that many attempts.
pub proof fn lemma_draw_gives_up(script: Script, kind: Instruction, width: Width)
    requires
        forall|i: nat| i < ceiling(kind) ==> script.at(i) is None,
    ensures
        script.draw(kind, width) == Err::<u64, ErrorCode>(ErrorCode::HardwareFailure),
        script.after_draw(kind) == script.skip(ceiling(kind)),
{
    lemma_leading_misses(script, ceiling(kind), ceiling(kind));
}

/// A draw makes at least one attempt and no more than the retry ceiling
/// allows, and it fails only if it has made that many.
pub proof fn lemma_draw_within_ceiling(script: Script, kind: Instruction, width: Width)
    ensures
        script.leading_misses(ceiling(kind)) <= ceiling(kind),
        script.draw(kind, width) is Err <==> script.leading_misses(ceiling(kind)) == ceiling(
            kind,
        ),
        script.draw(kind, width) matches Err(e) ==> e == ErrorCode::HardwareFailure,
{
    lemma_misses_within_budget(script, ceiling(kind));
}

/// No more attempts are counted than the budget allows.
proof fn lemma_misses_within_budget(script: Script, budget: nat)
    ensures
        script.leading_misses(budget) <= budget,
    decreases budget,
{
    if budget > 0 && script.at(0) is None {
        lemma_misses_within_budget(script.skip(1), (budget - 1) as nat);
    }
}

/// A run that has ended with a draw that gave up is not continued.
pub proof fn lemma_run_ends_with_failure(
    script: Script,
    kind: Instruction,
    width: Width,
    count: nat,
    more: nat,
)
    requires
        script.run(kind, width, count).failed,
        count <= more,
    ensures
        script.run(kind, width, more) == script.run(kind, width, count),
    decreases more,
{
    if count < more {
        lemma_run_ends_with_failure(script, kind, width, count, (more - 1) as nat);
    }
}

/// An identification query of `leaf` on a processor with the answers `script`
/// gave `answer` and left the answers `after`.
pub open spec fn answered(
    script: Option<Script>,
    leaf: u32,
    answer: CpuidResult,
    after: Option<Script>,
) -> bool {
    script matches Some(s) ==> answer == s.leaf(leaf) && after == Some(s)
}

/// One attempt in the form of `width` on a processor with the answers
/// `script` gave `outcome` and left the answers `after`.
pub open spec fn produced(
    script: Option<Script>,
    width: Width,
    outcome: Option<u64>,
    after: Option<Script>,
) -> bool {
    script matches Some(s) ==> outcome == cut_outcome(width, s.at(0)) && after == Some(s.skip(1))
}

/// One draw of `kind` in the form of `width` on a processor with the answers
/// `script` returned `r` and left the answers `after`.
pub open spec fn drawn(
    script: Option<Script>,
    kind: Instruction,
    width: Width,
    r: Result<u64, ErrorCode>,
    after: Option<Script>,
) -> bool {
    script matches Some(s) ==> r == s.draw(kind, width) && after == Some(s.after_draw(kind))
}

/// A fill of `dest_before` from native words of `kind` on a processor with
/// the answers `script` left the buffer `dest_after`, returned `r` and left
/// the answers `after`: it drew the words that the buffer needs, as far as
/// the draws did not give up, and failed if one did.
pub open spec fn filled_from(
    script: Option<Script>,
    kind: Instruction,
    width: Width,
    dest_before: Seq<u8>,
    dest_after: Seq<u8>,
    lead: nat,
    r: Result<(), ErrorCode>,
    after: Option<Script>,
) -> bool {
    script matches Some(s) ==> {
        let run = s.run(kind, width, words_needed(dest_before.len(), width.bytes(), lead));
        &&& dest_after == written(dest_before, width.bytes(), lead, run.words)
        &&& r == if run.failed {
            Err::<(), ErrorCode>(ErrorCode::HardwareFailure)
        } else {
            Ok::<(), ErrorCode>(())
        }
        &&& after == Some(run.rest)
    }
}

} // verus!
