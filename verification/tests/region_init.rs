use linker_sections::init::{init_regions, init_regions_checked, section_init, section_init_checked};
use linker_sections::memory::{Bank, Memory};
use linker_sections::region::{check_region, InitError, Region};

fn bank(base: u32, words: Vec<u32>) -> Bank {
    Bank { base, words }
}

fn filled(n: usize, value: u32) -> Vec<u32> {
    let mut v = Vec::new();
    for _ in 0..n {
        v.push(value);
    }
    v
}

fn counting(n: usize, start: u32) -> Vec<u32> {
    let mut v = Vec::new();
    for k in 0..n {
        v.push(start + k as u32);
    }
    v
}

#[test]
fn read_write_word_roundtrip() {
    let mut mem = Memory { banks: vec![bank(0x100, filled(4, 7))] };
    assert_eq!(mem.read_word(0x104), 7);
    mem.write_word(0x104, 99);
    assert_eq!(mem.read_word(0x104), 99);
    assert_eq!(mem.read_word(0x100), 7);
    assert_eq!(mem.read_word(0x108), 7);
    assert_eq!(mem.read_word(0x10C), 7);
}

#[test]
fn section_init_copies_words() {
    // One bank: source words 1..=4 at 0x200, destination zeros at 0x210.
    let mut words = counting(4, 1);
    words.extend(filled(4, 0));
    let mut mem = Memory { banks: vec![bank(0x200, words)] };
    let r = Region { dest_start: 0x210, dest_end: 0x220, src_start: 0x200 };
    section_init(&mut mem, r);
    assert_eq!(mem.read_word(0x210), 1);
    assert_eq!(mem.read_word(0x214), 2);
    assert_eq!(mem.read_word(0x218), 3);
    assert_eq!(mem.read_word(0x21C), 4);
    // The source range still holds its original words.
    assert_eq!(mem.read_word(0x200), 1);
    assert_eq!(mem.read_word(0x204), 2);
    assert_eq!(mem.read_word(0x208), 3);
    assert_eq!(mem.read_word(0x20C), 4);
}

#[test]
fn zero_length_region_is_noop() {
    let mut mem = Memory { banks: vec![bank(0x400, counting(8, 10))] };
    let r = Region { dest_start: 0x410, dest_end: 0x410, src_start: 0x400 };
    section_init(&mut mem, r);
    for k in 0..8u32 {
        assert_eq!(mem.read_word(0x400 + 4 * k), 10 + k);
    }
}

#[test]
fn check_region_accepts_valid() {
    let r = Region { dest_start: 0x2000_4000, dest_end: 0x2000_4400, src_start: 0x0800_1000 };
    assert_eq!(check_region(r), Ok(()));
}

#[test]
fn check_region_rejects_misaligned_dest_start() {
    let r = Region { dest_start: 0x1002, dest_end: 0x1010, src_start: 0x2000 };
    assert_eq!(check_region(r), Err(InitError::StartNotAligned));
}

#[test]
fn check_region_rejects_misaligned_dest_end() {
    let r = Region { dest_start: 0x1000, dest_end: 0x1012, src_start: 0x2000 };
    assert_eq!(check_region(r), Err(InitError::EndNotAligned));
}

#[test]
fn check_region_rejects_misaligned_src() {
    let r = Region { dest_start: 0x1000, dest_end: 0x1010, src_start: 0x2001 };
    assert_eq!(check_region(r), Err(InitError::SrcNotAligned));
}

#[test]
fn check_region_rejects_end_before_start() {
    let r = Region { dest_start: 0x1010, dest_end: 0x1000, src_start: 0x2000 };
    assert_eq!(check_region(r), Err(InitError::EndBeforeStart));
}

#[test]
fn check_region_rejects_overlap() {
    // Source starts inside the destination range.
    let r = Region { dest_start: 0x1000, dest_end: 0x1020, src_start: 0x1010 };
    assert_eq!(check_region(r), Err(InitError::RangesOverlap));
    // Destination starts inside the source range.
    let r2 = Region { dest_start: 0x1010, dest_end: 0x1030, src_start: 0x1000 };
    assert_eq!(check_region(r2), Err(InitError::RangesOverlap));
    // The separation test is strict: a source ending exactly at the
    // destination's start is refused too.
    let r3 = Region { dest_start: 0x1010, dest_end: 0x1020, src_start: 0x1000 };
    assert_eq!(check_region(r3), Err(InitError::RangesOverlap));
}

#[test]
fn checked_init_aborts_before_copy_on_misalignment() {
    let mut mem = Memory { banks: vec![bank(0x200, counting(8, 1))] };
    let r = Region { dest_start: 0x212, dest_end: 0x220, src_start: 0x200 };
    let res = section_init_checked(&mut mem, r);
    assert_eq!(res, Err(InitError::StartNotAligned));
    // No word changed.
    for k in 0..8u32 {
        assert_eq!(mem.read_word(0x200 + 4 * k), 1 + k);
    }
}

#[test]
fn checked_init_aborts_before_copy_on_overlap() {
    let mut mem = Memory { banks: vec![bank(0x200, counting(8, 1))] };
    let r = Region { dest_start: 0x208, dest_end: 0x218, src_start: 0x200 };
    let res = section_init_checked(&mut mem, r);
    assert_eq!(res, Err(InitError::RangesOverlap));
    for k in 0..8u32 {
        assert_eq!(mem.read_word(0x200 + 4 * k), 1 + k);
    }
}

#[test]
fn checked_init_copies_valid_region() {
    let mut mem = Memory { banks: vec![bank(0x200, counting(12, 1))] };
    let r = Region { dest_start: 0x220, dest_end: 0x230, src_start: 0x200 };
    assert_eq!(section_init_checked(&mut mem, r), Ok(()));
    assert_eq!(mem.read_word(0x220), 1);
    assert_eq!(mem.read_word(0x22C), 4);
}

#[test]
fn independent_regions_all_correct() {
    // Flash-like bank holds the two images; RAM-like bank the destinations.
    let mut flash = counting(4, 100);
    flash.extend(counting(4, 200));
    let mut mem = Memory {
        banks: vec![bank(0x1000, flash), bank(0x2000, filled(12, 0))],
    };
    let a = Region { dest_start: 0x2000, dest_end: 0x2010, src_start: 0x1000 };
    let b = Region { dest_start: 0x2010, dest_end: 0x2020, src_start: 0x1010 };
    init_regions(&mut mem, &vec![a, b]);
    for k in 0..4u32 {
        assert_eq!(mem.read_word(0x2000 + 4 * k), 100 + k);
        assert_eq!(mem.read_word(0x2010 + 4 * k), 200 + k);
    }
    // No spillover past the two destination ranges.
    assert_eq!(mem.read_word(0x2020), 0);
    assert_eq!(mem.read_word(0x2024), 0);
}

#[test]
fn declaration_order_decides_chained_copy() {
    // Region `b` reads the range region `a` writes.  Declared `[a, b]`,
    // `b` observes `a`'s image; declared `[b, a]`, it observes the
    // original contents.
    let a = Region { dest_start: 0x3010, dest_end: 0x3020, src_start: 0x3000 };
    let b = Region { dest_start: 0x3020, dest_end: 0x3030, src_start: 0x3010 };
    let initial = || {
        let mut words = counting(4, 500);
        words.extend(filled(8, 0));
        Memory { banks: vec![bank(0x3000, words)] }
    };

    let mut first = initial();
    init_regions(&mut first, &vec![a, b]);
    for k in 0..4u32 {
        assert_eq!(first.read_word(0x3020 + 4 * k), 500 + k);
    }

    let mut second = initial();
    init_regions(&mut second, &vec![b, a]);
    for k in 0..4u32 {
        assert_eq!(second.read_word(0x3020 + 4 * k), 0);
    }
}

#[test]
fn checked_regions_stop_at_first_bad() {
    let mut mem = Memory { banks: vec![bank(0x200, counting(16, 1))] };
    let good = Region { dest_start: 0x220, dest_end: 0x230, src_start: 0x200 };
    let bad = Region { dest_start: 0x232, dest_end: 0x240, src_start: 0x200 };
    let later = Region { dest_start: 0x230, dest_end: 0x240, src_start: 0x210 };
    let res = init_regions_checked(&mut mem, &vec![good, bad, later]);
    assert_eq!(res, Err(InitError::StartNotAligned));
    // The region before the bad one has been copied.
    assert_eq!(mem.read_word(0x220), 1);
    assert_eq!(mem.read_word(0x22C), 4);
    // The region after it has not.
    assert_eq!(mem.read_word(0x230), 13);
    assert_eq!(mem.read_word(0x23C), 16);
}

#[test]
fn error_descriptions_name_each_check() {
    let all = [
        InitError::EndBeforeStart,
        InitError::SrcNotAligned,
        InitError::StartNotAligned,
        InitError::EndNotAligned,
        InitError::RangesOverlap,
        InitError::DuplicateSection,
        InitError::UnresolvedSymbol,
    ];
    for (i, e) in all.iter().enumerate() {
        assert!(!e.describe().is_empty());
        for other in all.iter().skip(i + 1) {
            assert_ne!(e.describe(), other.describe());
        }
    }
}
