//! Filling a byte buffer from native words, each drawn with bounded retry.
use vstd::prelude::*;
use crate::errors::ErrorCode;
use crate::hardware::{
    attempts_in, grown, hits, lemma_attempts_in_both, Event, Hardware, Instruction, Processor,
    Width,
};
use crate::invoker::{
    ceiling, drew_all, exhausted, gave_up_after, lemma_draw, lemma_drew_all_grows,
    lemma_drew_all_hits, lemma_drew_none, lemma_drew_one_more, lemma_gave_up_grows,
    lemma_gave_up_hits, retry,
};
use crate::layout::{
    byte_at, byte_of, head_len, in_mid, lemma_layout, lemma_word_division, mid_len, place,
    source_byte, source_word, words_needed, written,
};
use crate::script::{filled_from, lemma_run_ends_with_failure, Script};

verus! {

/// What a fill that drew `words` does and returns. It succeeds when it has
/// drawn every word that the buffer needs; it fails at the first draw that
/// gives up, and leaves what it has written until then.
pub open spec fn fill_outcome(
    kind: Instruction,
    width: Width,
    before: Seq<Event>,
    after: Seq<Event>,
    dest_before: Seq<u8>,
    dest_after: Seq<u8>,
    lead: nat,
    r: Result<(), ErrorCode>,
    words: Seq<u64>,
) -> bool {
    let needed = words_needed(dest_before.len(), width.bytes(), lead);
    &&& dest_after == written(dest_before, width.bytes(), lead, words)
    &&& match r {
        Ok(_) => words.len() == needed && drew_all(kind, width, before, after, words),
        Err(e) => e == ErrorCode::HardwareFailure && words.len() < needed && gave_up_after(
            kind,
            width,
            before,
            after,
            words,
        ),
    }
}

/// What a fill does and returns, for the words that the processor gave it.
pub open spec fn filled(
    kind: Instruction,
    width: Width,
    before: Seq<Event>,
    after: Seq<Event>,
    dest_before: Seq<u8>,
    dest_after: Seq<u8>,
    lead: nat,
    r: Result<(), ErrorCode>,
) -> bool {
    exists|words: Seq<u64>| #[trigger]
        fill_outcome(kind, width, before, after, dest_before, dest_after, lead, r, words)
}

/// A fill is what its trace shows: the buffer holds the bytes of the words
/// that the processor produced during the fill, in their order, and the fill
/// succeeds exactly if those are all the words that the buffer needs.
pub proof fn lemma_filled_from_trace(
    kind: Instruction,
    width: Width,
    before: Seq<Event>,
    after: Seq<Event>,
    dest_before: Seq<u8>,
    dest_after: Seq<u8>,
    lead: nat,
    r: Result<(), ErrorCode>,
)
    requires
        filled(kind, width, before, after, dest_before, dest_after, lead, r),
    ensures
        hits(before).len() <= hits(after).len(),
        dest_after == written(
            dest_before,
            width.bytes(),
            lead,
            hits(after).skip(hits(before).len() as int),
        ),
        hits(after).len() - hits(before).len() <= words_needed(
            dest_before.len(),
            width.bytes(),
            lead,
        ),
        r is Ok <==> hits(after).len() - hits(before).len() == words_needed(
            dest_before.len(),
            width.bytes(),
            lead,
        ),
        r matches Err(e) ==> e == ErrorCode::HardwareFailure,
{
    let words = choose|words: Seq<u64>| #[trigger]
        fill_outcome(kind, width, before, after, dest_before, dest_after, lead, r, words);
    match r {
        Ok(_) => {
            lemma_drew_all_hits(kind, width, before, after, words);
        },
        Err(_) => {
            lemma_gave_up_hits(kind, width, before, after, words);
        },
    }
    assert((hits(before) + words).skip(hits(before).len() as int) =~= words);
}

/// A fill draws no more often than the buffer needs words, and each of its
/// draws stays within the retry ceiling.
pub proof fn lemma_filled_attempts(
    kind: Instruction,
    width: Width,
    before: Seq<Event>,
    after: Seq<Event>,
    dest_before: Seq<u8>,
    dest_after: Seq<u8>,
    lead: nat,
    r: Result<(), ErrorCode>,
)
    requires
        filled(kind, width, before, after, dest_before, dest_after, lead, r),
    ensures
        attempts_in(after) - attempts_in(before) <= words_needed(
            dest_before.len(),
            width.bytes(),
            lead,
        ) * ceiling(kind),
{
    let words = choose|words: Seq<u64>| #[trigger]
        fill_outcome(kind, width, before, after, dest_before, dest_after, lead, r, words);
    let needed = words_needed(dest_before.len(), width.bytes(), lead);
    let c = ceiling(kind);
    match r {
        Ok(_) => {
            lemma_drew_all_hits(kind, width, before, after, words);
        },
        Err(_) => {
            let mid = choose|mid: Seq<Event>| #[trigger]
                drew_all(kind, width, before, mid, words) && after == mid + exhausted(
                    kind,
                    width,
                );
            lemma_drew_all_hits(kind, width, before, mid, words);
            lemma_draw(kind, width, (ceiling(kind) - 1) as nat, None);
            lemma_attempts_in_both(mid, exhausted(kind, width));
            assert(words.len() * c + c <= needed * c) by (nonlinear_arith)
                requires
                    words.len() + 1 <= needed,
                    c >= 0,
            ;
        },
    }
}

/// A fill only adds to the trace.
pub proof fn lemma_filled_grows(
    kind: Instruction,
    width: Width,
    before: Seq<Event>,
    after: Seq<Event>,
    dest_before: Seq<u8>,
    dest_after: Seq<u8>,
    lead: nat,
    r: Result<(), ErrorCode>,
)
    requires
        filled(kind, width, before, after, dest_before, dest_after, lead, r),
    ensures
        grown(before, after),
{
    let words = choose|words: Seq<u64>| #[trigger]
        fill_outcome(kind, width, before, after, dest_before, dest_after, lead, r, words);
    match r {
        Ok(_) => {
            lemma_drew_all_grows(kind, width, before, after, words);
        },
        Err(_) => {
            lemma_gave_up_grows(kind, width, before, after, words);
        },
    }
}

/// Writes the `w` low bytes of `word` to `dest`, the lowest at `at`.
fn store(dest: &mut [u8], at: usize, word: u64, w: usize)
    requires
        w == 4 || w == 8,
        at + w <= old(dest)@.len(),
    ensures
        final(dest)@.len() == old(dest)@.len(),
        forall|i: int|
            0 <= i < old(dest)@.len() ==> final(dest)@[i] == if at <= i < at + w {
                byte_of(word, i - at)
            } else {
                old(dest)@[i]
            },
{
    let n: usize = dest.len();
    let mut b: usize = 0;
    while b < w
        invariant
            w == 4 || w == 8,
            b <= w,
            at + w <= n == dest@.len(),
            dest@.len() == old(dest)@.len(),
            forall|i: int|
                0 <= i < dest@.len() ==> dest@[i] == if at <= i < at + b {
                    byte_of(word, i - at)
                } else {
                    old(dest)@[i]
                },
        decreases w - b,
    {
        dest[at + b] = byte_at(word, b);
        b += 1;
    }
}

/// The width of the native word of a target, with its number of bytes.
pub fn native_word(wide: bool) -> (r: (Width, usize))
    ensures
        r.0 == (if wide {
            Width::W64
        } else {
            Width::W32
        }),
        r.1 == r.0.bytes(),
{
    if wide {
        (Width::W64, 8)
    } else {
        (Width::W32, 4)
    }
}

/// Fills `dest` from native words of `kind`. `lead` is the distance from the
/// start of `dest` to the next boundary of a native word; whatever it is,
/// every byte of `dest` is written once, from a byte of its own of a drawn
/// word. The first draw that gives up ends the fill with `HardwareFailure`.
pub fn fill<H: Hardware>(
    cpu: &mut Processor<H>,
    kind: Instruction,
    dest: &mut [u8],
    lead: usize,
) -> (r: Result<(), ErrorCode>)
    ensures
        filled(
            kind,
            old(cpu).target().native(),
            old(cpu).trace(),
            final(cpu).trace(),
            old(dest)@,
            final(dest)@,
            lead as nat,
            r,
        ),
        final(cpu).target() == old(cpu).target(),
        filled_from(
            old(cpu).script(),
            kind,
            old(cpu).target().native(),
            old(dest)@,
            final(dest)@,
            lead as nat,
            r,
            final(cpu).script(),
        ),
{
    let n: usize = dest.len();
    let target = cpu.build();
    let (width, w) = native_word(target.wide);
    let head: usize = if n <= w || lead > n {
        n
    } else {
        lead
    };
    let rest: usize = n - head;
    proof {
        lemma_layout(n as nat, w as nat, lead as nat);
    }
    let mid: usize = rest - rest % w;
    let ghost mut words: Seq<u64> = Seq::empty();
    proof {
        lemma_drew_none(kind, width, cpu.trace());
    }
    let mut at: usize = head;
    while at < head + mid
        invariant
            n == dest@.len() == old(dest)@.len(),
            width == old(cpu).target().native(),
            w == width.bytes(),
            head == head_len(n as nat, w as nat, lead as nat),
            mid == mid_len(n as nat, w as nat, lead as nat),
            head + mid <= n,
            head <= at <= head + mid,
            (mid - (at - head)) % (w as int) == 0,
            drew_all(kind, width, old(cpu).trace(), cpu.trace(), words),
            cpu.target() == old(cpu).target(),
            ran(old(cpu).script(), kind, width, words, cpu.script()),
            mid_state(old(dest)@, dest@, w as nat, lead as nat, words, at as int),
        decreases head + mid - at,
    {
        let ghost before = cpu.trace();
        let ghost held = dest@;
        match retry(cpu, kind, width) {
            Ok(word) => {
                proof {
                    lemma_layout(n as nat, w as nat, lead as nat);
                    lemma_word_division(w as int, mid as int, 0, mid - (at - head));
                }
                store(dest, at, word, w);
                proof {
                    lemma_drew_one_more(
                        kind,
                        width,
                        old(cpu).trace(),
                        before,
                        cpu.trace(),
                        words,
                        word,
                    );
                    lemma_mid_step(
                        old(dest)@,
                        held,
                        dest@,
                        w as nat,
                        lead as nat,
                        words,
                        word,
                        at as int,
                    );
                    words = words.push(word);
                }
                at += w;
            },
            Err(e) => {
                proof {
                    lemma_ran_out(
                        old(cpu).script(),
                        kind,
                        width,
                        words,
                        words_needed(n as nat, w as nat, lead as nat),
                    );
                    lemma_mid_stop(old(dest)@, dest@, w as nat, lead as nat, words, at as int);
                    assert(gave_up_after(kind, width, old(cpu).trace(), cpu.trace(), words));
                    assert(fill_outcome(
                        kind,
                        width,
                        old(cpu).trace(),
                        cpu.trace(),
                        old(dest)@,
                        dest@,
                        lead as nat,
                        Err(e),
                        words,
                    ));
                }
                return Err(e);
            },
        }
    }
    let spliced: usize = n - mid;
    proof {
        lemma_mid_done(old(dest)@, dest@, w as nat, lead as nat, words);
    }
    let mut word: u64 = 0;
    let mut p: usize = 0;
    while p < spliced
        invariant
            n == dest@.len() == old(dest)@.len(),
            width == old(cpu).target().native(),
            w == width.bytes(),
            head == head_len(n as nat, w as nat, lead as nat),
            mid == mid_len(n as nat, w as nat, lead as nat),
            head + mid <= n,
            spliced == n - mid,
            p <= spliced,
            p % w != 0 ==> words.len() > 0 && word == words.last(),
            drew_all(kind, width, old(cpu).trace(), cpu.trace(), words),
            cpu.target() == old(cpu).target(),
            ran(old(cpu).script(), kind, width, words, cpu.script()),
            splice_state(old(dest)@, dest@, w as nat, lead as nat, words, p as int),
        decreases spliced - p,
    {
        if p % w == 0 {
            let ghost before = cpu.trace();
            match retry(cpu, kind, width) {
                Ok(fresh) => {
                    proof {
                        lemma_drew_one_more(
                            kind,
                            width,
                            old(cpu).trace(),
                            before,
                            cpu.trace(),
                            words,
                            fresh,
                        );
                        lemma_splice_draw(
                            old(dest)@,
                            dest@,
                            w as nat,
                            lead as nat,
                            words,
                            fresh,
                            p as int,
                        );
                        words = words.push(fresh);
                    }
                    word = fresh;
                },
                Err(e) => {
                    proof {
                        lemma_ran_out(
                            old(cpu).script(),
                            kind,
                            width,
                            words,
                            words_needed(n as nat, w as nat, lead as nat),
                        );
                        lemma_splice_stop(
                            old(dest)@,
                            dest@,
                            w as nat,
                            lead as nat,
                            words,
                            p as int,
                        );
                        assert(gave_up_after(kind, width, old(cpu).trace(), cpu.trace(), words));
                        assert(fill_outcome(
                            kind,
                            width,
                            old(cpu).trace(),
                            cpu.trace(),
                            old(dest)@,
                            dest@,
                            lead as nat,
                            Err(e),
                            words,
                        ));
                    }
                    return Err(e);
                },
            }
        }
        let i: usize = if p < head {
            p
        } else {
            p + mid
        };
        let ghost held = dest@;
        dest[i] = byte_at(word, p % w);
        proof {
            lemma_splice_step(old(dest)@, held, dest@, w as nat, lead as nat, words, p as int);
        }
        p += 1;
    }
    proof {
        lemma_splice_done(old(dest)@, dest@, w as nat, lead as nat, words);
        assert(fill_outcome(
            kind,
            width,
            old(cpu).trace(),
            cpu.trace(),
            old(dest)@,
            dest@,
            lead as nat,
            Ok(()),
            words,
        ));
    }
    Ok(())
}

/// On a processor with the answers `script`, the draws of `words` so far have
/// all produced their word, and have left the answers `now`.
spec fn ran(
    script: Option<Script>,
    kind: Instruction,
    width: Width,
    words: Seq<u64>,
    now: Option<Script>,
) -> bool {
    script matches Some(s) ==> {
        let run = s.run(kind, width, words.len());
        !run.failed && run.words == words && now == Some(run.rest)
    }
}

/// Where the draw after those of `words` gives up, the run that was to draw
/// `needed` words ends with it.
proof fn lemma_ran_out(
    script: Option<Script>,
    kind: Instruction,
    width: Width,
    words: Seq<u64>,
    needed: nat,
)
    requires
        script matches Some(s) ==> {
            let run = s.run(kind, width, words.len());
            !run.failed && run.words == words && run.rest.draw(kind, width) is Err
        },
    ensures
        words.len() < needed ==> (script matches Some(s) ==> {
            let run = s.run(kind, width, needed);
            let last = s.run(kind, width, words.len());
            run.failed && run.words == words && run.rest == last.rest.after_draw(kind)
        }),
{
    if let Some(s) = script {
        if words.len() < needed {
            let next = s.run(kind, width, words.len() + 1);
            assert(next.failed);
            lemma_run_ends_with_failure(s, kind, width, words.len() + 1, needed);
        }
    }
}

/// The buffer while its middle is being filled: the middle holds its words
/// up to `at`, and nothing else is written yet.
spec fn mid_state(
    dest0: Seq<u8>,
    dest: Seq<u8>,
    w: nat,
    lead: nat,
    words: Seq<u64>,
    at: int,
) -> bool {
    let n = dest0.len();
    let head = head_len(n, w, lead);
    &&& dest.len() == n
    &&& words.len() == (at - head) / (w as int)
    &&& forall|i: int|
        0 <= i < n ==> #[trigger] dest[i] == if head <= i < at {
            byte_of(words[source_word(n, w, lead, i)], source_byte(n, w, lead, i))
        } else {
            dest0[i]
        }
}

/// The buffer while head and tail are being served: the middle is full, and
/// head and tail hold their bytes up to place `p`.
spec fn splice_state(
    dest0: Seq<u8>,
    dest: Seq<u8>,
    w: nat,
    lead: nat,
    words: Seq<u64>,
    p: int,
) -> bool {
    let n = dest0.len();
    &&& dest.len() == n
    &&& words.len() == mid_len(n, w, lead) / w + (p + w - 1) / (w as int)
    &&& forall|i: int|
        0 <= i < n ==> #[trigger] dest[i] == if in_mid(n, w, lead, i) || place(n, w, lead, i)
            < p {
            byte_of(words[source_word(n, w, lead, i)], source_byte(n, w, lead, i))
        } else {
            dest0[i]
        }
}

/// A word stored at `at` fills the next slot of the middle.
proof fn lemma_mid_step(
    dest0: Seq<u8>,
    held: Seq<u8>,
    dest: Seq<u8>,
    w: nat,
    lead: nat,
    words: Seq<u64>,
    word: u64,
    at: int,
)
    requires
        w == 4 || w == 8,
        mid_state(dest0, held, w, lead, words, at),
        head_len(dest0.len(), w, lead) <= at,
        at + w <= head_len(dest0.len(), w, lead) + mid_len(dest0.len(), w, lead),
        (at - head_len(dest0.len(), w, lead)) % (w as int) == 0,
        dest.len() == held.len(),
        forall|i: int|
            0 <= i < held.len() ==> dest[i] == if at <= i < at + w {
                byte_of(word, i - at)
            } else {
                held[i]
            },
    ensures
        mid_state(dest0, dest, w, lead, words.push(word), at + w),
{
    let n = dest0.len();
    let head = head_len(n, w, lead);
    let mid = mid_len(n, w, lead);
    let longer = words.push(word);
    lemma_layout(n, w, lead);
    lemma_word_division(w as int, mid as int, 0, at - head);
    assert forall|i: int| 0 <= i < n implies #[trigger] dest[i] == if head <= i < at + w {
        byte_of(longer[source_word(n, w, lead, i)], source_byte(n, w, lead, i))
    } else {
        dest0[i]
    } by {
        if head <= i < at + w {
            assert(in_mid(n, w, lead, i));
            lemma_word_division(w as int, mid as int, i - head, at - head);
            if i < at {
                assert(held[i] == byte_of(words[(i - head) / (w as int)], (i - head) % (w as int)));
            } else {
                lemma_division_within(w as int, at - head, i - at);
            }
        }
    }
}

/// Behind a boundary of words, a byte of the next word has that word's
/// number, and its own number within it.
proof fn lemma_division_within(w: int, start: int, b: int)
    requires
        w == 4 || w == 8,
        0 <= start,
        start % w == 0,
        0 <= b < w,
    ensures
        (start + b) / w == start / w,
        (start + b) % w == b,
{
    if w == 4 {
        assert((start + b) / 4 == start / 4 && (start + b) % 4 == b);
    } else {
        assert((start + b) / 8 == start / 8 && (start + b) % 8 == b);
    }
}

/// Where a draw for the middle gives up, the buffer holds what the words
/// drawn until then give it, and more words were needed.
proof fn lemma_mid_stop(
    dest0: Seq<u8>,
    dest: Seq<u8>,
    w: nat,
    lead: nat,
    words: Seq<u64>,
    at: int,
)
    requires
        w == 4 || w == 8,
        mid_state(dest0, dest, w, lead, words, at),
        head_len(dest0.len(), w, lead) <= at < head_len(dest0.len(), w, lead) + mid_len(
            dest0.len(),
            w,
            lead,
        ),
        (mid_len(dest0.len(), w, lead) - (at - head_len(dest0.len(), w, lead))) % (w as int) == 0,
    ensures
        dest == written(dest0, w, lead, words),
        words.len() < words_needed(dest0.len(), w, lead),
{
    let n = dest0.len();
    let head = head_len(n, w, lead);
    let mid = mid_len(n, w, lead);
    lemma_layout(n, w, lead);
    lemma_multiple_apart(w as int, mid as int, at - head);
    lemma_word_division(w as int, mid as int, at - head, at - head);
    lemma_word_division(w as int, mid as int, 0, n - mid);
    assert forall|i: int| 0 <= i < n implies dest[i] == written(dest0, w, lead, words)[i] by {
        if in_mid(n, w, lead, i) {
            lemma_word_division(w as int, mid as int, i - head, at - head);
        } else {
            lemma_word_division(w as int, mid as int, place(n, w, lead, i), 0);
        }
    }
    assert(dest =~= written(dest0, w, lead, words));
}

/// A number that lies a multiple of the word size below a multiple is one.
proof fn lemma_multiple_apart(w: int, mid: int, x: int)
    requires
        w == 4 || w == 8,
        mid % w == 0,
        (mid - x) % w == 0,
    ensures
        x % w == 0,
{
    if w == 4 {
        assert(mid % 4 == 0 && (mid - x) % 4 == 0 ==> x % 4 == 0);
    } else {
        assert(mid % 8 == 0 && (mid - x) % 8 == 0 ==> x % 8 == 0);
    }
}

/// With the middle full, head and tail are served from place 0.
proof fn lemma_mid_done(dest0: Seq<u8>, dest: Seq<u8>, w: nat, lead: nat, words: Seq<u64>)
    requires
        w == 4 || w == 8,
        mid_state(
            dest0,
            dest,
            w,
            lead,
            words,
            (head_len(dest0.len(), w, lead) + mid_len(dest0.len(), w, lead)) as int,
        ),
    ensures
        splice_state(dest0, dest, w, lead, words, 0),
{
    let n = dest0.len();
    lemma_layout(n, w, lead);
    lemma_word_division(w as int, mid_len(n, w, lead) as int, 0, 0);
}

/// A word drawn where the last one is used up leaves the buffer as it is.
proof fn lemma_splice_draw(
    dest0: Seq<u8>,
    dest: Seq<u8>,
    w: nat,
    lead: nat,
    words: Seq<u64>,
    word: u64,
    p: int,
)
    requires
        w == 4 || w == 8,
        0 <= p,
        p % (w as int) == 0,
        splice_state(dest0, dest, w, lead, words, p),
    ensures
        words.push(word).len() == mid_len(dest0.len(), w, lead) / w + p / (w as int) + 1,
        forall|i: int|
            0 <= i < dest0.len() ==> #[trigger] dest[i] == if in_mid(dest0.len(), w, lead, i)
                || place(dest0.len(), w, lead, i) < p {
                byte_of(
                    words.push(word)[source_word(dest0.len(), w, lead, i)],
                    source_byte(dest0.len(), w, lead, i),
                )
            } else {
                dest0[i]
            },
{
    let n = dest0.len();
    let head = head_len(n, w, lead);
    let mid = mid_len(n, w, lead);
    lemma_layout(n, w, lead);
    lemma_word_division(w as int, mid as int, 0, p);
    assert forall|i: int| 0 <= i < n implies #[trigger] dest[i] == if in_mid(n, w, lead, i)
        || place(n, w, lead, i) < p {
        byte_of(words.push(word)[source_word(n, w, lead, i)], source_byte(n, w, lead, i))
    } else {
        dest0[i]
    } by {
        if in_mid(n, w, lead, i) {
            lemma_word_division(w as int, mid as int, i - head, p);
        } else if place(n, w, lead, i) < p {
            lemma_word_division(w as int, mid as int, place(n, w, lead, i), p);
        }
    }
}

/// A byte of the last word written at place `p` serves head and tail up to
/// place `p + 1`.
proof fn lemma_splice_step(
    dest0: Seq<u8>,
    held: Seq<u8>,
    dest: Seq<u8>,
    w: nat,
    lead: nat,
    words: Seq<u64>,
    p: int,
)
    requires
        w == 4 || w == 8,
        0 <= p < dest0.len() - mid_len(dest0.len(), w, lead),
        held.len() == dest0.len(),
        words.len() == mid_len(dest0.len(), w, lead) / w + p / (w as int) + 1,
        forall|i: int|
            0 <= i < dest0.len() ==> #[trigger] held[i] == if in_mid(dest0.len(), w, lead, i)
                || place(dest0.len(), w, lead, i) < p {
                byte_of(
                    words[source_word(dest0.len(), w, lead, i)],
                    source_byte(dest0.len(), w, lead, i),
                )
            } else {
                dest0[i]
            },
        dest == held.update(
            if p < head_len(dest0.len(), w, lead) {
                p
            } else {
                p + mid_len(dest0.len(), w, lead)
            },
            byte_of(words.last(), p % (w as int)),
        ),
    ensures
        splice_state(dest0, dest, w, lead, words, p + 1),
{
    let n = dest0.len();
    let head = head_len(n, w, lead);
    let mid = mid_len(n, w, lead);
    let at = if p < head {
        p
    } else {
        p + mid
    };
    lemma_layout(n, w, lead);
    lemma_word_division(w as int, mid as int, 0, p);
    assert(!in_mid(n, w, lead, at) && place(n, w, lead, at) == p);
    assert forall|i: int| 0 <= i < n implies #[trigger] dest[i] == if in_mid(n, w, lead, i)
        || place(n, w, lead, i) < p + 1 {
        byte_of(words[source_word(n, w, lead, i)], source_byte(n, w, lead, i))
    } else {
        dest0[i]
    } by {
        if i != at {
            assert(dest[i] == held[i]);
            assert(in_mid(n, w, lead, i) || place(n, w, lead, i) != p);
        }
    }
}

/// Where a draw for head and tail gives up, the buffer holds what the words
/// drawn until then give it, and more words were needed.
proof fn lemma_splice_stop(
    dest0: Seq<u8>,
    dest: Seq<u8>,
    w: nat,
    lead: nat,
    words: Seq<u64>,
    p: int,
)
    requires
        w == 4 || w == 8,
        0 <= p < dest0.len() - mid_len(dest0.len(), w, lead),
        p % (w as int) == 0,
        splice_state(dest0, dest, w, lead, words, p),
    ensures
        dest == written(dest0, w, lead, words),
        words.len() < words_needed(dest0.len(), w, lead),
{
    let n = dest0.len();
    let head = head_len(n, w, lead);
    let mid = mid_len(n, w, lead);
    lemma_layout(n, w, lead);
    lemma_word_division(w as int, mid as int, p, n - mid);
    lemma_word_division(w as int, mid as int, 0, p);
    assert forall|i: int| 0 <= i < n implies dest[i] == written(dest0, w, lead, words)[i] by {
        if in_mid(n, w, lead, i) {
            lemma_word_division(w as int, mid as int, i - head, p);
        } else {
            lemma_word_division(w as int, mid as int, place(n, w, lead, i), p);
        }
    }
    assert(dest =~= written(dest0, w, lead, words));
}

/// With head and tail served to their end, the buffer holds what all the
/// words that it needs give it.
proof fn lemma_splice_done(dest0: Seq<u8>, dest: Seq<u8>, w: nat, lead: nat, words: Seq<u64>)
    requires
        w == 4 || w == 8,
        splice_state(
            dest0,
            dest,
            w,
            lead,
            words,
            dest0.len() - mid_len(dest0.len(), w, lead),
        ),
    ensures
        dest == written(dest0, w, lead, words),
        words.len() == words_needed(dest0.len(), w, lead),
{
    let n = dest0.len();
    let head = head_len(n, w, lead);
    let mid = mid_len(n, w, lead);
    lemma_layout(n, w, lead);
    assert forall|i: int| 0 <= i < n implies dest[i] == written(dest0, w, lead, words)[i] by {
        if in_mid(n, w, lead, i) {
            lemma_word_division(w as int, mid as int, i - head, n - mid);
        } else {
            lemma_word_division(w as int, mid as int, place(n, w, lead, i), n - mid);
        }
    }
    assert(dest =~= written(dest0, w, lead, words));
}

} // verus!
