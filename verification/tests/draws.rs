use rdrand::generator::{next_u16, next_u32, next_u64};
use rdrand::invoker::{attempts, retry, step, RDRAND_ATTEMPTS, RDSEED_ATTEMPTS};
use rdrand::{
    CpuidResult, ErrorCode, Event, Hardware, Instruction, Processor, RdRand, RdSeed, Scripted,
    Target, Width,
};

const ZERO: CpuidResult = CpuidResult { eax: 0, ebx: 0, ecx: 0, edx: 0 };

const KINDS: [Instruction; 2] = [Instruction::RdRand, Instruction::RdSeed];

const WIDTHS: [Width; 3] = [Width::W16, Width::W32, Width::W64];

const WORD: u64 = 0x0123_4567_89AB_CDEF;

/// Hardware that announces both instructions and follows `script`.
fn scripted(wide: bool, script: Vec<Option<u64>>) -> Scripted {
    let target = Target { cpuid: true, rdrand: false, rdseed: false, wide };
    let features = CpuidResult { ecx: 1 << 30, ..ZERO };
    let extended = CpuidResult { ebx: 1 << 18, ..ZERO };
    Scripted::new(target, ZERO, features, extended, script)
}

fn processor(wide: bool, script: Vec<Option<u64>>) -> Processor<Scripted> {
    Processor::new(scripted(wide, script))
}

fn log(cpu: &Processor<Scripted>) -> &[Event] {
    cpu.hardware().log()
}

/// A script that misses `n` times and then produces `word`.
fn misses_then(n: usize, word: u64) -> Vec<Option<u64>> {
    let mut script = vec![None; n];
    script.push(Some(word));
    script
}

fn cut(width: Width, word: u64) -> u64 {
    match width {
        Width::W16 => word & 0xFFFF,
        Width::W32 => word & 0xFFFF_FFFF,
        Width::W64 => word,
    }
}

fn steps(log: &[Event]) -> usize {
    log.iter().filter(|e| matches!(e, Event::Step { .. })).count()
}

fn pauses(log: &[Event]) -> usize {
    log.iter().filter(|e| matches!(e, Event::Pause)).count()
}

#[test]
fn ceilings() {
    assert_eq!(RDRAND_ATTEMPTS, 11);
    assert_eq!(RDSEED_ATTEMPTS, 128);
    assert_eq!(attempts(Instruction::RdRand), 11);
    assert_eq!(attempts(Instruction::RdSeed), 128);
}

#[test]
fn a_draw_succeeds_within_the_ceiling() {
    for kind in KINDS {
        let ceiling = attempts(kind) as usize;
        for width in WIDTHS {
            for n in [0, 1, 2, ceiling - 2, ceiling - 1] {
                let mut hw = processor(true, misses_then(n, WORD));
                assert_eq!(retry(&mut hw, kind, width), Ok(cut(width, WORD)));
                assert_eq!(hw.hardware().position(), n + 1);
                assert_eq!(steps(log(&hw)), n + 1);
                assert_eq!(
                    log(&hw).last(),
                    Some(&Event::Step {
                        instruction: kind,
                        width,
                        outcome: Some(cut(width, WORD))
                    })
                );
            }
        }
    }
}

#[test]
fn a_draw_gives_up_at_the_ceiling() {
    for kind in KINDS {
        let ceiling = attempts(kind) as usize;
        for width in WIDTHS {
            for n in [ceiling, ceiling + 1, 1000] {
                let mut hw = processor(true, misses_then(n, WORD));
                assert_eq!(retry(&mut hw, kind, width), Err(ErrorCode::HardwareFailure));
                assert_eq!(hw.hardware().position(), ceiling);
                assert_eq!(steps(log(&hw)), ceiling);
            }
        }
    }
}

#[test]
fn a_processor_that_never_produces_fails_every_draw() {
    for kind in KINDS {
        let ceiling = attempts(kind) as usize;
        let mut hw = processor(true, Vec::new());
        assert_eq!(next_u16(&mut hw, kind), Err(ErrorCode::HardwareFailure));
        assert_eq!(steps(log(&hw)), ceiling);
        assert_eq!(next_u32(&mut hw, kind), Err(ErrorCode::HardwareFailure));
        assert_eq!(steps(log(&hw)), 2 * ceiling);
        assert_eq!(next_u64(&mut hw, kind), Err(ErrorCode::HardwareFailure));
        assert_eq!(steps(log(&hw)), 3 * ceiling);
        assert!(log(&hw)
            .iter()
            .all(|e| !matches!(e, Event::Step { outcome: Some(_), .. })));
    }
}

#[test]
fn only_the_seed_instruction_pauses() {
    let mut hw = processor(true, misses_then(5, WORD));
    assert_eq!(retry(&mut hw, Instruction::RdRand, Width::W64), Ok(WORD));
    assert_eq!(pauses(log(&hw)), 0);
    assert_eq!(log(&hw).len(), 6);

    let mut hw = processor(true, misses_then(5, WORD));
    assert_eq!(retry(&mut hw, Instruction::RdSeed, Width::W64), Ok(WORD));
    assert_eq!(pauses(log(&hw)), 5);
    let miss = Event::Step { instruction: Instruction::RdSeed, width: Width::W64, outcome: None };
    let mut expected = Vec::new();
    for _ in 0..5 {
        expected.push(miss);
        expected.push(Event::Pause);
    }
    expected.push(Event::Step {
        instruction: Instruction::RdSeed,
        width: Width::W64,
        outcome: Some(WORD),
    });
    assert_eq!(log(&hw), &expected[..]);

    let mut hw = processor(true, Vec::new());
    assert_eq!(retry(&mut hw, Instruction::RdSeed, Width::W32), Err(ErrorCode::HardwareFailure));
    assert_eq!(steps(log(&hw)), 128);
    assert_eq!(pauses(log(&hw)), 127);
    assert!(matches!(log(&hw).last(), Some(Event::Step { outcome: None, .. })));
}

#[test]
fn a_step_is_one_attempt() {
    let mut hw = processor(true, vec![Some(WORD), None, Some(WORD)]);
    assert_eq!(step(&mut hw, Instruction::RdRand, Width::W16), Some(0xCDEF));
    assert_eq!(step(&mut hw, Instruction::RdSeed, Width::W32), None);
    assert_eq!(step(&mut hw, Instruction::RdSeed, Width::W32), Some(0x89AB_CDEF));
    assert_eq!(step(&mut hw, Instruction::RdRand, Width::W64), None);
    assert_eq!(log(&hw).len(), 4);
    assert_eq!(pauses(log(&hw)), 0);
}

#[test]
fn words_of_each_width() {
    for kind in KINDS {
        let mut hw = processor(true, vec![Some(WORD); 3]);
        assert_eq!(next_u16(&mut hw, kind), Ok(0xCDEF));
        assert_eq!(next_u32(&mut hw, kind), Ok(0x89AB_CDEF));
        assert_eq!(next_u64(&mut hw, kind), Ok(WORD));
        assert_eq!(
            log(&hw),
            &[
                Event::Step { instruction: kind, width: Width::W16, outcome: Some(0xCDEF) },
                Event::Step { instruction: kind, width: Width::W32, outcome: Some(0x89AB_CDEF) },
                Event::Step { instruction: kind, width: Width::W64, outcome: Some(WORD) },
            ]
        );
    }
}

#[test]
fn a_wide_word_of_two_halves() {
    for kind in KINDS {
        let mut hw = processor(false, vec![Some(0x1111_2222), None, Some(0x3333_4444)]);
        assert_eq!(next_u64(&mut hw, kind), Ok(0x1111_2222_3333_4444));
        assert_eq!(steps(log(&hw)), 3);
        assert!(log(&hw)
            .iter()
            .all(|e| !matches!(e, Event::Step { width: Width::W64, .. })));
    }
}

#[test]
fn a_wide_word_fails_with_either_half() {
    for kind in KINDS {
        let ceiling = attempts(kind) as usize;
        let mut hw = processor(false, Vec::new());
        assert_eq!(next_u64(&mut hw, kind), Err(ErrorCode::HardwareFailure));
        assert_eq!(steps(log(&hw)), ceiling);

        let mut hw = processor(false, vec![Some(1)]);
        assert_eq!(next_u64(&mut hw, kind), Err(ErrorCode::HardwareFailure));
        assert_eq!(steps(log(&hw)), 1 + ceiling);

        let mut script = vec![None; ceiling - 1];
        script.push(Some(1));
        script.extend(vec![None; ceiling - 1]);
        script.push(Some(2));
        let mut hw = processor(false, script);
        assert_eq!(next_u64(&mut hw, kind), Ok((1 << 32) | 2));
        assert_eq!(steps(log(&hw)), 2 * ceiling);
    }
}

#[test]
fn generators_draw_with_their_own_instruction() {
    let mut random = RdRand::new(scripted(true, vec![Some(WORD); 3])).ok().unwrap();
    assert_eq!(random.try_next_u16(), Ok(0xCDEF));
    assert_eq!(random.try_next_u32(), Ok(0x89AB_CDEF));
    assert_eq!(random.try_next_u64(), Ok(WORD));
    assert_eq!(random.try_next_u64(), Err(ErrorCode::HardwareFailure));
    assert_eq!(steps(random.hardware().log()), 3 + 11);
    assert!(random.hardware().log().iter().all(|e| matches!(
        e,
        Event::Cpuid { .. } | Event::Step { instruction: Instruction::RdRand, .. }
    )));

    let mut seed = RdSeed::new(scripted(true, vec![Some(WORD); 3])).ok().unwrap();
    assert_eq!(seed.try_next_u16(), Ok(0xCDEF));
    assert_eq!(seed.try_next_u32(), Ok(0x89AB_CDEF));
    assert_eq!(seed.try_next_u64(), Ok(WORD));
    assert_eq!(seed.try_next_u64(), Err(ErrorCode::HardwareFailure));
    assert_eq!(steps(seed.hardware().log()), 3 + 128);
    assert!(seed.hardware().log().iter().all(|e| matches!(
        e,
        Event::Cpuid { .. } | Event::Pause | Event::Step { instruction: Instruction::RdSeed, .. }
    )));
}

/// A processor that counts: each attempt produces the number of the attempts
/// before it.
#[derive(Clone, Copy)]
struct Counting {
    next: u64,
}

impl Hardware for Counting {
    fn build(&self) -> Target {
        Target { cpuid: false, rdrand: true, rdseed: true, wide: true }
    }

    fn cpuid(&mut self, _leaf: u32) -> CpuidResult {
        ZERO
    }

    fn step16(&mut self, kind: Instruction) -> Option<u16> {
        self.step64(kind).map(|w| w as u16)
    }

    fn step32(&mut self, kind: Instruction) -> Option<u32> {
        self.step64(kind).map(|w| w as u32)
    }

    fn step64(&mut self, _kind: Instruction) -> Option<u64> {
        self.next += 1;
        Some(self.next - 1)
    }

    fn pause(&mut self) {}
}

#[test]
fn generators_can_be_copied() {
    let random = RdRand::new(Counting { next: 5 }).ok().unwrap();
    let mut first = random;
    let mut second = random.clone();
    assert_eq!(first.try_next_u64(), Ok(5));
    assert_eq!(second.try_next_u64(), Ok(5));
    assert_eq!(first.try_next_u16(), Ok(6));
    assert_eq!(second.try_next_u32(), Ok(6));
    let seed = RdSeed::new(Counting { next: 0 }).ok().unwrap();
    let mut copy = seed;
    assert_eq!(copy.try_next_u64(), Ok(0));
    assert_eq!(seed.hardware().next, 0);
}
