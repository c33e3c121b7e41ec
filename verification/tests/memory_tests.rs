use math_evaluator::mmap::{GuardedMmap, Region};

const PAGE: usize = 4096;

#[test]
fn test_page_aligned_size() {
    assert_eq!(Region::page_aligned_size(0, PAGE), 0);
    assert_eq!(Region::page_aligned_size(1, PAGE), PAGE);
    assert_eq!(Region::page_aligned_size(PAGE, PAGE), PAGE);
    assert_eq!(Region::page_aligned_size(PAGE + 1, PAGE), 2 * PAGE);
}

#[test]
fn test_region_protection_transitions() {
    let mut region = Region::new(0x20_0000, 2 * PAGE);
    assert!(!region.is_executable());
    region.protect_rx().unwrap();
    assert!(region.is_executable());
    region.protect_rw().unwrap();
    assert!(!region.is_executable());
    region.protect_rwx().unwrap();
    assert!(region.is_executable());
    region.protect_no_access().unwrap();
    assert!(!region.is_executable());
}

#[test]
fn test_region_split_end() {
    let mut region = Region::new(0x20_0000, 4 * PAGE);
    let tail = region.split_end(100).unwrap();
    assert_eq!(region.addr(), 0x20_0000);
    assert_eq!(region.size(), 4 * PAGE - 100);
    assert_eq!(tail.addr(), 0x20_0000 + 4 * PAGE - 100);
    assert_eq!(tail.size(), 100);
}

#[test]
fn test_region_split_pages() {
    let mut region = Region::new(0x20_0000, 4 * PAGE);
    let head = region.split_page_start(PAGE).unwrap();
    assert_eq!(head.addr(), 0x20_0000);
    assert_eq!(head.size(), PAGE);
    assert_eq!(region.addr(), 0x20_0000 + PAGE);
    assert_eq!(region.size(), 3 * PAGE);
    let tail = region.split_page_end(PAGE).unwrap();
    assert_eq!(tail.addr(), 0x20_0000 + 3 * PAGE);
    assert_eq!(tail.size(), PAGE);
    assert_eq!(region.size(), 2 * PAGE);
}

#[test]
fn test_region_split_too_small() {
    let mut region = Region::new(0x20_0000, PAGE);
    assert!(region.split_page_start(PAGE).is_err());
    assert!(region.split_page_end(PAGE).is_err());
    assert!(region.split_end(PAGE + 1).is_err());
}

#[test]
fn test_guarded_mmap_zero_size() {
    // Nothing to fence: a zero-sized request leaves no middle page.
    let mapping = Region::new(0x40_0000, 2 * PAGE);
    assert!(matches!(
        GuardedMmap::new(0, "empty".to_string(), mapping, PAGE),
        Err(math_evaluator::mmap::MmapError::SplitFailedNotEnoughSpace)
    ));
}

#[test]
fn test_guarded_mmap() {
    let usable = Region::page_aligned_size(100, PAGE);
    let mapping = Region::new(0x30_0000, usable + 2 * PAGE);
    let mut guarded = GuardedMmap::new(100, "eval_stack".to_string(), mapping, PAGE).unwrap();
    assert_eq!(guarded.name(), "eval_stack");
    assert_eq!(guarded.addr(), 0x30_0000 + PAGE);
    assert!(!guarded.is_executable());
    guarded.protect_rx().unwrap();
    assert!(guarded.is_executable());
    guarded.protect_rw().unwrap();
    assert!(!guarded.is_executable());
}
