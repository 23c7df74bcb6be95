use rdrand::detector::{
    amd_family, authentic_amd, has_rdrand, has_rdseed, is_available, is_intel,
};
use rdrand::{
    CpuidResult, ErrorCode, Event, Hardware, Instruction, Processor, RdRand, RdSeed, Scripted,
    Target,
};

const ZERO: CpuidResult = CpuidResult { eax: 0, ebx: 0, ecx: 0, edx: 0 };

const AMD: CpuidResult =
    CpuidResult { eax: 0x10, ebx: 0x6874_7541, ecx: 0x444D_4163, edx: 0x6974_6E65 };

const INTEL: CpuidResult =
    CpuidResult { eax: 0x16, ebx: 0x756E_6547, ecx: 0x6C65_746E, edx: 0x4965_6E69 };

const RDRAND_BIT: u32 = 1 << 30;

const RDSEED_BIT: u32 = 1 << 18;

const KINDS: [Instruction; 2] = [Instruction::RdRand, Instruction::RdSeed];

fn plain() -> Target {
    Target { cpuid: true, rdrand: false, rdseed: false, wide: true }
}

/// Leaf 1 of a processor of `family`, with every feature bit of `ecx` as in
/// `ecx`.
fn leaf1(family: u32, ecx: u32) -> CpuidResult {
    let (base, extended) = if family < 0xF { (family, 0) } else { (0xF, family - 0xF) };
    CpuidResult { eax: (base << 8) | (extended << 20), ecx, ..ZERO }
}

fn detect(
    target: Target,
    id: CpuidResult,
    features: CpuidResult,
    extended: CpuidResult,
    kind: Instruction,
) -> (bool, Vec<Event>) {
    let mut cpu = Processor::new(Scripted::new(target, id, features, extended, Vec::new()));
    let found = is_available(&mut cpu, kind);
    (found, cpu.hardware().log().clone())
}

fn asked(log: &[Event]) -> Vec<u32> {
    log.iter()
        .map(|e| match e {
            Event::Cpuid { leaf, .. } => *leaf,
            _ => panic!("detection does more than ask"),
        })
        .collect()
}

#[test]
fn old_amd_with_the_feature_bits_is_unavailable() {
    let extended = CpuidResult { ebx: RDSEED_BIT, ..ZERO };
    for family in [0x00, 0x0E, 0x0F, 0x10, 0x15, 0x16] {
        for kind in KINDS {
            let (found, _) = detect(plain(), AMD, leaf1(family, RDRAND_BIT), extended, kind);
            assert!(!found, "family {:#x}", family);
        }
    }
}

#[test]
fn old_amd_is_unavailable_even_where_the_build_promises() {
    let target = Target { rdrand: true, rdseed: true, ..plain() };
    let extended = CpuidResult { ebx: RDSEED_BIT, ..ZERO };
    for kind in KINDS {
        let (found, _) = detect(target, AMD, leaf1(0x16, RDRAND_BIT), extended, kind);
        assert!(!found);
    }
}

#[test]
fn good_amd_with_the_feature_bits_is_available() {
    let extended = CpuidResult { ebx: RDSEED_BIT, ..ZERO };
    for family in [0x17, 0x18, 0x19, 0x10E] {
        for kind in KINDS {
            let (found, _) = detect(plain(), AMD, leaf1(family, RDRAND_BIT), extended, kind);
            assert!(found, "family {:#x}", family);
        }
    }
}

#[test]
fn good_amd_without_the_feature_bits_is_unavailable() {
    for kind in KINDS {
        let (found, _) = detect(plain(), AMD, leaf1(0x17, !RDRAND_BIT), CpuidResult { ebx: !RDSEED_BIT, ..ZERO }, kind);
        assert!(!found);
    }
}

#[test]
fn other_vendor_without_the_feature_bits_is_unavailable() {
    for id in [INTEL, ZERO, CpuidResult { edx: 0, ..AMD }] {
        for kind in KINDS {
            let (found, _) = detect(plain(), id, leaf1(6, !RDRAND_BIT), CpuidResult { ebx: !RDSEED_BIT, ..ZERO }, kind);
            assert!(!found);
        }
    }
}

#[test]
fn other_vendor_with_the_feature_bits_is_available() {
    let extended = CpuidResult { ebx: RDSEED_BIT, ..ZERO };
    for kind in KINDS {
        let (found, _) = detect(plain(), INTEL, leaf1(6, RDRAND_BIT), extended, kind);
        assert!(found);
    }
}

#[test]
fn each_instruction_has_its_own_bit() {
    let (found, _) =
        detect(plain(), INTEL, leaf1(6, RDRAND_BIT), ZERO, Instruction::RdSeed);
    assert!(!found);
    let (found, _) = detect(
        plain(),
        INTEL,
        leaf1(6, 0),
        CpuidResult { ebx: RDSEED_BIT, ..ZERO },
        Instruction::RdRand,
    );
    assert!(!found);
}

#[test]
fn other_vendor_is_available_where_the_build_promises() {
    let (found, log) = detect(Target { rdrand: true, ..plain() }, INTEL, ZERO, ZERO, Instruction::RdRand);
    assert!(found);
    assert_eq!(asked(&log), [0]);
    let (found, log) = detect(Target { rdseed: true, ..plain() }, INTEL, ZERO, ZERO, Instruction::RdSeed);
    assert!(found);
    assert_eq!(asked(&log), [0]);
    let (found, _) = detect(Target { rdrand: true, ..plain() }, INTEL, ZERO, ZERO, Instruction::RdSeed);
    assert!(!found);
}

#[test]
fn without_queries_only_the_build_decides() {
    let features = leaf1(6, RDRAND_BIT);
    let extended = CpuidResult { ebx: RDSEED_BIT, ..ZERO };
    for (rdrand, rdseed) in [(false, false), (true, false), (false, true), (true, true)] {
        let target = Target { cpuid: false, rdrand, rdseed, wide: true };
        let (found, log) = detect(target, INTEL, features, extended, Instruction::RdRand);
        assert_eq!(found, rdrand);
        assert!(log.is_empty());
        let (found, log) = detect(target, INTEL, features, extended, Instruction::RdSeed);
        assert_eq!(found, rdseed);
        assert!(log.is_empty());
    }
}

#[test]
fn detection_asks_only_what_decides() {
    let features = leaf1(0x17, RDRAND_BIT);
    let extended = CpuidResult { ebx: RDSEED_BIT, ..ZERO };
    let (_, log) = detect(plain(), AMD, features, extended, Instruction::RdRand);
    assert_eq!(
        log,
        [Event::Cpuid { leaf: 0, answer: AMD }, Event::Cpuid { leaf: 1, answer: features }]
    );
    let (_, log) = detect(plain(), AMD, features, extended, Instruction::RdSeed);
    assert_eq!(asked(&log), [0, 1, 7]);
    let (_, log) = detect(plain(), AMD, leaf1(0x16, RDRAND_BIT), extended, Instruction::RdSeed);
    assert_eq!(asked(&log), [0, 1]);
    let (_, log) = detect(plain(), INTEL, features, extended, Instruction::RdRand);
    assert_eq!(asked(&log), [0, 1]);
    let (_, log) = detect(plain(), INTEL, features, extended, Instruction::RdSeed);
    assert_eq!(
        log,
        [Event::Cpuid { leaf: 0, answer: INTEL }, Event::Cpuid { leaf: 7, answer: extended }]
    );
}

#[test]
fn construction_fails_where_detection_finds_nothing() {
    let hw = Scripted::new(plain(), AMD, leaf1(0x16, RDRAND_BIT), ZERO, vec![Some(1)]);
    assert!(matches!(RdRand::new(hw), Err(ErrorCode::UnsupportedInstruction)));
    let hw = Scripted::new(plain(), INTEL, ZERO, ZERO, vec![Some(1)]);
    assert!(matches!(RdSeed::new(hw), Err(ErrorCode::UnsupportedInstruction)));
    let hw = Scripted::new(plain(), INTEL, leaf1(6, RDRAND_BIT), ZERO, vec![Some(1)]);
    assert!(matches!(RdSeed::new(hw), Err(ErrorCode::UnsupportedInstruction)));
}

#[test]
fn construction_succeeds_where_detection_finds_the_instruction() {
    let extended = CpuidResult { ebx: RDSEED_BIT, ..ZERO };
    let hw = Scripted::new(plain(), INTEL, leaf1(6, RDRAND_BIT), extended, vec![Some(1)]);
    let made = RdRand::new(hw).ok().expect("the instruction is announced");
    assert_eq!(asked(made.hardware().log()), [0, 1]);
    assert_eq!(made.hardware().build(), plain());
    let hw = Scripted::new(plain(), AMD, leaf1(0x19, 0), extended, vec![Some(1)]);
    let made = RdSeed::new(hw).ok().expect("the instruction is announced");
    assert_eq!(asked(made.hardware().log()), [0, 1, 7]);
}

#[test]
fn unchecked_construction_asks_nothing() {
    let hw = Scripted::new(plain(), INTEL, leaf1(6, RDRAND_BIT), ZERO, vec![Some(7)]);
    let mut cpu = Processor::new(hw);
    assert!(is_available(&mut cpu, Instruction::RdRand));
    let mut made = RdRand::new_unchecked(cpu);
    assert_eq!(asked(made.hardware().log()), [0, 1]);
    assert_eq!(made.try_next_u64(), Ok(7));
}

#[test]
fn vendors() {
    assert!(authentic_amd(&AMD));
    assert!(!authentic_amd(&INTEL));
    assert!(!authentic_amd(&CpuidResult { ebx: 0, ..AMD }));
    assert!(!authentic_amd(&CpuidResult { ecx: 0, ..AMD }));
    assert!(!authentic_amd(&CpuidResult { edx: 0, ..AMD }));
    assert!(is_intel(&INTEL));
    assert!(!is_intel(&AMD));
    assert!(!is_intel(&CpuidResult { ebx: 0, ..INTEL }));
    assert!(!is_intel(&CpuidResult { ecx: 0, ..INTEL }));
    assert!(!is_intel(&CpuidResult { edx: 0, ..INTEL }));
    assert!(!is_intel(&ZERO));
}

#[test]
fn family_adds_base_and_extended_family() {
    assert_eq!(amd_family(&CpuidResult { eax: 0x00A2_0F12, ..ZERO }), 0xF + 0x0A);
    assert_eq!(amd_family(&CpuidResult { eax: 0x0080_0F82, ..ZERO }), 0x17);
    assert_eq!(amd_family(&CpuidResult { eax: 0x0000_0600, ..ZERO }), 6);
    assert_eq!(amd_family(&CpuidResult { eax: u32::MAX, ..ZERO }), 0xF + 0xFF);
    assert_eq!(amd_family(&CpuidResult { eax: 0xF00F_F0FF, ..ZERO }), 0);
    assert_eq!(amd_family(&leaf1(0x17, 0)), 0x17);
}

#[test]
fn feature_bits() {
    assert!(has_rdrand(&CpuidResult { ecx: RDRAND_BIT, ..ZERO }));
    assert!(has_rdrand(&CpuidResult { ecx: u32::MAX, ..ZERO }));
    assert!(!has_rdrand(&CpuidResult { ecx: !RDRAND_BIT, ..ZERO }));
    assert!(!has_rdrand(&CpuidResult { eax: u32::MAX, ebx: u32::MAX, ecx: 0, edx: u32::MAX }));
    assert!(has_rdseed(&CpuidResult { ebx: RDSEED_BIT, ..ZERO }));
    assert!(has_rdseed(&CpuidResult { ebx: u32::MAX, ..ZERO }));
    assert!(!has_rdseed(&CpuidResult { ebx: !RDSEED_BIT, ..ZERO }));
    assert!(!has_rdseed(&CpuidResult { eax: u32::MAX, ebx: 0, ecx: u32::MAX, edx: u32::MAX }));
}
