use rdrand::filler::{fill, native_word};
use rdrand::layout::byte_at;
use rdrand::{
    CpuidResult, ErrorCode, Event, Instruction, Processor, RdRand, RdSeed, Scripted, Target, Width,
};

const ZERO: CpuidResult = CpuidResult { eax: 0, ebx: 0, ecx: 0, edx: 0 };

const KINDS: [Instruction; 2] = [Instruction::RdRand, Instruction::RdSeed];

fn scripted(wide: bool, script: Vec<Option<u64>>) -> Scripted {
    let target = Target { cpuid: true, rdrand: false, rdseed: false, wide };
    let features = CpuidResult { ecx: 1 << 30, ..ZERO };
    let extended = CpuidResult { ebx: 1 << 18, ..ZERO };
    Scripted::new(target, ZERO, features, extended, script)
}

/// Word number `k` of the scripts below: each of its bytes tells the word and
/// the byte.
fn word(k: usize) -> u64 {
    let mut w = 0u64;
    for b in 0..8 {
        w |= (((k * 8 + b) % 251 + 1) as u64) << (8 * b);
    }
    w
}

fn words(n: usize) -> Vec<Option<u64>> {
    (0..n).map(|k| Some(word(k))).collect()
}

fn draws(log: &[Event]) -> usize {
    log.iter().filter(|e| matches!(e, Event::Step { outcome: Some(_), .. })).count()
}

/// What a fill of `old` leaves when the processor produces `drawn` words and
/// then no more, and how many words the fill needs in all.
fn expected(old: &[u8], w: usize, lead: usize, drawn: usize) -> (Vec<u8>, usize) {
    let n = old.len();
    let head = if n <= w || lead > n { n } else { lead };
    let slots = (n - head) / w;
    let mut out = old.to_vec();
    let mut k = 0;
    for slot in 0..slots {
        if k < drawn {
            for b in 0..w {
                out[head + slot * w + b] = (word(k) >> (8 * b)) as u8;
            }
        }
        k += 1;
    }
    let rest: Vec<usize> = (0..head).chain(head + slots * w..n).collect();
    for chunk in rest.chunks(w) {
        if k < drawn {
            for (b, i) in chunk.iter().enumerate() {
                out[*i] = (word(k) >> (8 * b)) as u8;
            }
        }
        k += 1;
    }
    (out, k)
}

#[test]
fn native_words() {
    assert_eq!(native_word(true), (Width::W64, 8));
    assert_eq!(native_word(false), (Width::W32, 4));
}

#[test]
fn bytes_of_a_word() {
    let w = 0x0807_0605_0403_0201;
    for b in 0..8 {
        assert_eq!(byte_at(w, b), b as u8 + 1);
    }
    assert_eq!(byte_at(u64::MAX, 7), 0xFF);
    assert_eq!(byte_at(0x00FF_0000_0000_0000, 7), 0);
    assert_eq!(byte_at(0x00FF_0000_0000_0000, 6), 0xFF);
}

#[test]
fn fill_writes_every_byte_of_every_length_at_every_start() {
    for wide in [true, false] {
        let w = if wide { 8 } else { 4 };
        for n in 0..=41 {
            for lead in (0..=9).chain([n, n + 1, usize::MAX]) {
                let mut cpu = Processor::new(scripted(wide, words(64)));
                let mut buffer = [0xAAu8; 48];
                let old = [0xAAu8; 48];
                let r = fill(&mut cpu, Instruction::RdRand, &mut buffer[3..3 + n], lead);
                assert_eq!(r, Ok(()), "{} {} {}", w, n, lead);
                let (bytes, needed) = expected(&old[3..3 + n], w, lead, usize::MAX);
                assert_eq!(&buffer[3..3 + n], &bytes[..], "{} {} {}", w, n, lead);
                assert!(buffer[3..3 + n].iter().all(|b| *b != 0xAA));
                assert!(buffer[..3].iter().all(|b| *b == 0xAA));
                assert!(buffer[3 + n..].iter().all(|b| *b == 0xAA));
                assert_eq!(draws(cpu.hardware().log()), needed);
                let head = if n <= w || lead > n { n } else { lead };
                let slots = (n - head) / w;
                assert_eq!(needed, slots + (n - slots * w + w - 1) / w);
                assert!(cpu.hardware().log().iter().all(|e| matches!(
                    e,
                    Event::Step { width, .. } if *width == native_word(wide).0
                )));
            }
        }
    }
}

#[test]
fn fill_of_one_exact_layout() {
    // Three bytes of head, two words of middle, one byte of tail.
    let mut cpu = Processor::new(scripted(
        true,
        vec![
            Some(0x1817_1615_1413_1211),
            None,
            Some(0x2827_2625_2423_2221),
            Some(0x3837_3635_3433_3231),
            Some(0x4847_4645_4443_4241),
        ],
    ));
    let mut buffer = [0u8; 20];
    assert_eq!(fill(&mut cpu, Instruction::RdRand, &mut buffer, 3), Ok(()));
    assert_eq!(
        buffer,
        [
            0x31, 0x32, 0x33, // head
            0x11, 0x12, 0x13, 0x14, 0x15, 0x16, 0x17, 0x18, // first word of the middle
            0x21, 0x22, 0x23, 0x24, 0x25, 0x26, 0x27, 0x28, // second word of the middle
            0x34, // tail
        ]
    );
    assert_eq!(cpu.hardware().position(), 4);
}

#[test]
fn fill_of_narrow_words() {
    let mut cpu = Processor::new(scripted(
        false,
        vec![Some(0xFFFF_FFFF_1413_1211), Some(0x2423_2221), Some(0x3433_3231)],
    ));
    let mut buffer = [0u8; 10];
    assert_eq!(fill(&mut cpu, Instruction::RdSeed, &mut buffer, 1), Ok(()));
    assert_eq!(buffer, [0x31, 0x11, 0x12, 0x13, 0x14, 0x21, 0x22, 0x23, 0x24, 0x32]);
}

#[test]
fn head_and_tail_share_their_words() {
    // Five bytes of head and six of tail take two words, not three.
    let mut cpu = Processor::new(scripted(true, words(8)));
    let mut buffer = [0u8; 19];
    assert_eq!(fill(&mut cpu, Instruction::RdRand, &mut buffer, 5), Ok(()));
    assert_eq!(draws(cpu.hardware().log()), 3);
    let w1 = word(1).to_le_bytes();
    let w2 = word(2).to_le_bytes();
    assert_eq!(&buffer[..5], &w1[..5]);
    assert_eq!(&buffer[5..13], &word(0).to_le_bytes());
    assert_eq!(&buffer[13..16], &w1[5..]);
    assert_eq!(&buffer[16..], &w2[..3]);
}

#[test]
fn seven_bytes_at_an_odd_start_take_one_word() {
    // The buffer starts one byte behind a word boundary: seven bytes lead to
    // the next one.
    for kind in KINDS {
        let mut cpu = Processor::new(scripted(true, words(4)));
        let mut buffer = [0u8; 8];
        assert_eq!(fill(&mut cpu, kind, &mut buffer[1..], 7), Ok(()));
        assert_eq!(cpu.hardware().position(), 1);
        assert_eq!(cpu.hardware().log().len(), 1);
        assert_eq!(buffer[0], 0);
        assert_eq!(&buffer[1..], &word(0).to_le_bytes()[..7]);
    }
}

#[test]
fn a_buffer_of_at_most_one_word_takes_one_word() {
    for n in 1..=8 {
        for lead in 0..8 {
            let mut cpu = Processor::new(scripted(true, words(4)));
            let mut buffer = [0u8; 8];
            assert_eq!(fill(&mut cpu, Instruction::RdRand, &mut buffer[..n], lead), Ok(()));
            assert_eq!(cpu.hardware().position(), 1);
            assert_eq!(&buffer[..n], &word(0).to_le_bytes()[..n]);
        }
    }
}

#[test]
fn an_empty_buffer_takes_no_word() {
    for lead in [0, 1, 7, usize::MAX] {
        let mut cpu = Processor::new(scripted(true, Vec::new()));
        assert_eq!(fill(&mut cpu, Instruction::RdRand, &mut [], lead), Ok(()));
        assert!(cpu.hardware().log().is_empty());
    }
}

#[test]
fn a_failed_draw_ends_the_fill_and_keeps_what_was_written() {
    for wide in [true, false] {
        let w = if wide { 8 } else { 4 };
        for n in [1, 7, 8, 9, 20, 33] {
            for lead in [0, 3, 5] {
                let old: Vec<u8> = vec![0xAA; n];
                let needed = expected(&old, w, lead, usize::MAX).1;
                for drawn in 0..needed {
                    let mut cpu = Processor::new(scripted(wide, words(drawn)));
                    let mut buffer = old.clone();
                    let r = fill(&mut cpu, Instruction::RdRand, &mut buffer, lead);
                    assert_eq!(r, Err(ErrorCode::HardwareFailure));
                    assert_eq!(buffer, expected(&old, w, lead, drawn).0);
                    assert_eq!(draws(cpu.hardware().log()), drawn);
                    assert_eq!(cpu.hardware().log().len(), drawn + 11);
                }
            }
        }
    }
}

#[test]
fn a_fill_retries_each_draw() {
    let mut script = Vec::new();
    for k in 0..5 {
        script.extend(vec![None; 10]);
        script.push(Some(word(k)));
    }
    let mut cpu = Processor::new(scripted(true, script));
    let mut buffer = [0u8; 35];
    assert_eq!(fill(&mut cpu, Instruction::RdRand, &mut buffer, 0), Ok(()));
    assert_eq!(&buffer[..], &expected(&[0; 35], 8, 0, usize::MAX).0[..]);
    assert_eq!(cpu.hardware().position(), 55);
}

#[test]
fn two_fills_of_one_buffer_differ() {
    let mut random = RdRand::new(scripted(true, words(64))).ok().unwrap();
    let mut buffer = [0u8; 24];
    for _ in 0..8 {
        let before = buffer;
        assert_eq!(random.try_fill_bytes(&mut buffer), Ok(()));
        assert_ne!(before, buffer);
    }
}

#[test]
fn fill_in_place_writes_the_buffer_and_nothing_else() {
    for start in 0..9 {
        for end in start..41 {
            let mut random = RdRand::new(scripted(true, vec![Some(u64::MAX); 8])).ok().unwrap();
            let mut buffer = [0u8; 41];
            assert_eq!(random.try_fill_bytes(&mut buffer[start..end]), Ok(()));
            assert!(buffer[..start].iter().all(|b| *b == 0));
            assert!(buffer[start..end].iter().all(|b| *b == 0xFF));
            assert!(buffer[end..].iter().all(|b| *b == 0));

            let mut seed = RdSeed::new(scripted(false, vec![Some(u64::MAX); 16])).ok().unwrap();
            let mut buffer = [0u8; 41];
            assert_eq!(seed.try_fill_bytes(&mut buffer[start..end]), Ok(()));
            assert!(buffer[..start].iter().all(|b| *b == 0));
            assert!(buffer[start..end].iter().all(|b| *b == 0xFF));
            assert!(buffer[end..].iter().all(|b| *b == 0));
        }
    }
}

#[test]
fn fill_in_place_fails_with_the_processor() {
    let mut random = RdRand::new(scripted(true, words(2))).ok().unwrap();
    let mut buffer = [0u8; 64];
    assert_eq!(random.try_fill_bytes(&mut buffer), Err(ErrorCode::HardwareFailure));
    assert_eq!(buffer.iter().filter(|b| **b != 0).count(), 16);
    let mut seed = RdSeed::new(scripted(true, Vec::new())).ok().unwrap();
    let mut buffer = [0u8; 3];
    assert_eq!(seed.try_fill_bytes(&mut buffer), Err(ErrorCode::HardwareFailure));
    assert_eq!(buffer, [0; 3]);
    assert_eq!(seed.hardware().position(), 0);
    assert_eq!(seed.hardware().log().len(), 2 + 128 + 127);
}
