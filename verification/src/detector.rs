//! Deciding, from what the processor says of itself, whether an instruction
//! may be used.
use vstd::prelude::*;
use crate::hardware::{CpuidResult, Event, Hardware, Instruction, Processor, Target};
use crate::script::Script;

verus! {

/// Leaf 0 of a processor made by AMD holds this in `ebx`, ...
pub const AMD_EBX: u32 = 0x6874_7541;

/// ... this in `ecx`, ...
pub const AMD_ECX: u32 = 0x444D_4163;

/// ... and this in `edx`.
pub const AMD_EDX: u32 = 0x6974_6E65;

/// Leaf 0 of a processor made by Intel holds this in `ebx`, ...
pub const INTEL_EBX: u32 = 0x756E_6547;

/// ... this in `ecx`, ...
pub const INTEL_ECX: u32 = 0x6C65_746E;

/// ... and this in `edx`.
pub const INTEL_EDX: u32 = 0x4965_6E69;

/// The first family of AMD processors on which the two instructions can be
/// relied on. Older ones may report success and return a word that is not
/// random.
pub const FIRST_GOOD_AMD_FAMILY: u32 = 0x17;

/// The bit of `ecx` in leaf 1 that announces the random-number instruction.
pub const RDRAND_FLAG: u32 = 0x4000_0000;

/// The bit of `ebx` in leaf 7 that announces the random-seed instruction.
pub const RDSEED_FLAG: u32 = 0x0004_0000;

/// Whether leaf 0 names AMD as the vendor.
pub open spec fn vendor_is_amd(id: CpuidResult) -> bool {
    id.ebx == AMD_EBX && id.ecx == AMD_ECX && id.edx == AMD_EDX
}

/// Whether leaf 0 names Intel as the vendor.
pub open spec fn vendor_is_intel(id: CpuidResult) -> bool {
    id.ebx == INTEL_EBX && id.ecx == INTEL_ECX && id.edx == INTEL_EDX
}

/// The family that leaf 1 gives: its base family and its extended family,
/// added.
pub open spec fn family(features: CpuidResult) -> nat {
    (((features.eax >> 8) & 0xF) + ((features.eax >> 20) & 0xFF)) as nat
}

/// Whether leaf 1 announces the random-number instruction.
pub open spec fn rdrand_flag(features: CpuidResult) -> bool {
    features.ecx & RDRAND_FLAG == RDRAND_FLAG
}

/// Whether leaf 7 announces the random-seed instruction.
pub open spec fn rdseed_flag(extended: CpuidResult) -> bool {
    extended.ebx & RDSEED_FLAG == RDSEED_FLAG
}

/// Whether the processor announces `kind`, in leaf 1 or in leaf 7.
pub open spec fn announced(
    kind: Instruction,
    features: CpuidResult,
    extended: CpuidResult,
) -> bool {
    match kind {
        Instruction::RdRand => rdrand_flag(features),
        Instruction::RdSeed => rdseed_flag(extended),
    }
}

/// Whether `kind` may be used on a processor that answers leaves 0, 1 and 7
/// with `id`, `features` and `extended`.
///
/// Where identification queries are not allowed, only the build can promise
/// the instruction. An AMD processor must announce it and be of a good family,
/// whatever the build promises. Any other processor has it when the build
/// promises it or the processor announces it.
pub open spec fn available(
    kind: Instruction,
    target: Target,
    id: CpuidResult,
    features: CpuidResult,
    extended: CpuidResult,
) -> bool {
    if !target.cpuid {
        target.promises(kind)
    } else if vendor_is_amd(id) {
        family(features) >= FIRST_GOOD_AMD_FAMILY && announced(kind, features, extended)
    } else {
        target.promises(kind) || announced(kind, features, extended)
    }
}

/// The record of an identification query.
pub open spec fn query(leaf: u32, answer: CpuidResult) -> Event {
    Event::Cpuid { leaf, answer }
}

/// The queries that detection makes of a processor that answers leaves 0, 1
/// and 7 with `id`, `features` and `extended`: none where they are not
/// allowed, and otherwise leaf 0 and then only the leaves that still decide.
pub open spec fn queries(
    kind: Instruction,
    target: Target,
    id: CpuidResult,
    features: CpuidResult,
    extended: CpuidResult,
) -> Seq<Event> {
    if !target.cpuid {
        Seq::empty()
    } else if vendor_is_amd(id) {
        if kind == Instruction::RdSeed && family(features) >= FIRST_GOOD_AMD_FAMILY {
            seq![query(0, id), query(1, features), query(7, extended)]
        } else {
            seq![query(0, id), query(1, features)]
        }
    } else if target.promises(kind) {
        seq![query(0, id)]
    } else {
        match kind {
            Instruction::RdRand => seq![query(0, id), query(1, features)],
            Instruction::RdSeed => seq![query(0, id), query(7, extended)],
        }
    }
}

/// Detection of `kind` took the trace from `before` to `after` and found `r`.
pub open spec fn detected(
    kind: Instruction,
    target: Target,
    before: Seq<Event>,
    after: Seq<Event>,
    r: bool,
) -> bool {
    exists|id: CpuidResult, features: CpuidResult, extended: CpuidResult|
        after == before + #[trigger] queries(kind, target, id, features, extended) && r
            == available(kind, target, id, features, extended)
}

/// Detection of `kind` on a processor with the answers `script` found `r`,
/// and left the answers as they were.
pub open spec fn found(
    script: Option<Script>,
    kind: Instruction,
    target: Target,
    r: bool,
    after: Option<Script>,
) -> bool {
    script matches Some(s) ==> r == available(kind, target, s.id, s.features, s.extended)
        && after == Some(s)
}

/// An AMD processor of a family before the first good one has neither
/// instruction, whatever it announces and whatever the build promises.
pub proof fn lemma_old_amd_excluded(
    kind: Instruction,
    target: Target,
    id: CpuidResult,
    features: CpuidResult,
    extended: CpuidResult,
)
    requires
        target.cpuid,
        vendor_is_amd(id),
        family(features) < FIRST_GOOD_AMD_FAMILY,
    ensures
        !available(kind, target, id, features, extended),
{
}

/// Where identification queries are not allowed, detection asks nothing of
/// the processor and finds what the build promises.
pub proof fn lemma_detection_without_queries(
    kind: Instruction,
    target: Target,
    before: Seq<Event>,
    after: Seq<Event>,
    r: bool,
)
    requires
        !target.cpuid,
        detected(kind, target, before, after, r),
    ensures
        after == before,
        r == target.promises(kind),
{
    let (id, features, extended) = choose|
        id: CpuidResult,
        features: CpuidResult,
        extended: CpuidResult,
    |
        after == before + #[trigger] queries(kind, target, id, features, extended) && r
            == available(kind, target, id, features, extended);
    assert(before + queries(kind, target, id, features, extended) =~= before);
}

/// Detection asks the processor at most three times, and only identification
/// queries: it attempts no instruction.
pub proof fn lemma_detection_only_asks(
    kind: Instruction,
    target: Target,
    before: Seq<Event>,
    after: Seq<Event>,
    r: bool,
)
    requires
        detected(kind, target, before, after, r),
    ensures
        before.len() <= after.len() <= before.len() + 3,
        forall|i: int| before.len() <= i < after.len() ==> #[trigger] after[i] is Cpuid,
        forall|i: int| 0 <= i < before.len() ==> #[trigger] after[i] == before[i],
{
    let (id, features, extended) = choose|
        id: CpuidResult,
        features: CpuidResult,
        extended: CpuidResult,
    |
        after == before + #[trigger] queries(kind, target, id, features, extended) && r
            == available(kind, target, id, features, extended);
}

/// Whether leaf 0 names AMD as the vendor.
pub fn authentic_amd(id: &CpuidResult) -> (r: bool)
    ensures
        r == vendor_is_amd(*id),
{
    id.ebx == AMD_EBX && id.ecx == AMD_ECX && id.edx == AMD_EDX
}

/// Whether leaf 0 names Intel as the vendor.
pub fn is_intel(id: &CpuidResult) -> (r: bool)
    ensures
        r == vendor_is_intel(*id),
{
    id.ebx == INTEL_EBX && id.ecx == INTEL_ECX && id.edx == INTEL_EDX
}

/// The family that leaf 1 gives.
pub fn amd_family(features: &CpuidResult) -> (r: u32)
    ensures
        r == family(*features),
        r <= 0x10E,
{
    let eax: u32 = features.eax;
    let base: u32 = (eax >> 8) & 0xF;
    let extended: u32 = (eax >> 20) & 0xFF;
    assert(((eax >> 8) & 0xF) <= 0xF && ((eax >> 20) & 0xFF) <= 0xFF) by (bit_vector);
    base + extended
}

/// Whether leaf 1 announces the random-number instruction.
pub fn has_rdrand(features: &CpuidResult) -> (r: bool)
    ensures
        r == rdrand_flag(*features),
{
    features.ecx & RDRAND_FLAG == RDRAND_FLAG
}

/// Whether leaf 7 announces the random-seed instruction.
pub fn has_rdseed(extended: &CpuidResult) -> (r: bool)
    ensures
        r == rdseed_flag(*extended),
{
    extended.ebx & RDSEED_FLAG == RDSEED_FLAG
}

/// Detects whether `kind` may be used on this processor. It asks the
/// processor only where the target allows it, and only what still decides.
pub fn is_available<H: Hardware>(cpu: &mut Processor<H>, kind: Instruction) -> (r: bool)
    ensures
        detected(kind, old(cpu).target(), old(cpu).trace(), final(cpu).trace(), r),
        final(cpu).target() == old(cpu).target(),
        found(old(cpu).script(), kind, old(cpu).target(), r, final(cpu).script()),
{
    let target = cpu.build();
    let ghost before = cpu.trace();
    let ghost zero = CpuidResult { eax: 0, ebx: 0, ecx: 0, edx: 0 };
    if !target.cpuid {
        let r = target.guaranteed(kind);
        proof {
            assert(before =~= before + queries(kind, target, zero, zero, zero));
        }
        return r;
    }
    let id = cpu.cpuid(0);
    if authentic_amd(&id) {
        let features = cpu.cpuid(1);
        if amd_family(&features) < FIRST_GOOD_AMD_FAMILY {
            proof {
                assert(cpu.trace() =~= before + queries(kind, target, id, features, zero));
            }
            return false;
        }
        match kind {
            Instruction::RdRand => {
                proof {
                    assert(cpu.trace() =~= before + queries(kind, target, id, features, zero));
                }
                has_rdrand(&features)
            },
            Instruction::RdSeed => {
                let extended = cpu.cpuid(7);
                proof {
                    assert(cpu.trace() =~= before + queries(kind, target, id, features, extended));
                }
                has_rdseed(&extended)
            },
        }
    } else if target.guaranteed(kind) {
        proof {
            assert(cpu.trace() =~= before + queries(kind, target, id, zero, zero));
        }
        true
    } else {
        match kind {
            Instruction::RdRand => {
                let features = cpu.cpuid(1);
                proof {
                    assert(cpu.trace() =~= before + queries(kind, target, id, features, zero));
                }
                has_rdrand(&features)
            },
            Instruction::RdSeed => {
                let extended = cpu.cpuid(7);
                proof {
                    assert(cpu.trace() =~= before + queries(kind, target, id, zero, extended));
                }
                has_rdseed(&extended)
            },
        }
    }
}

} // verus!
