use freemkv_engine::sections::SubRanges;

#[test]
fn subranges_from_section_and_basics() {
    let s = SubRanges::from_section(2048, 10 * 2048);
    assert!(!s.is_empty());
    assert_eq!(s.total_len(), 10 * 2048);
    assert_eq!(s.ranges(), &[(2048, 10 * 2048)]);
    assert!(SubRanges::from_section(2048, 0).is_empty());
    assert!(SubRanges::default().is_empty());
}

#[test]
fn subranges_remove_middle_splits() {
    let mut s = SubRanges::from_section(0, 20 * 1024);
    s.remove(8 * 1024, 4 * 1024);
    assert_eq!(s.ranges(), &[(0, 8 * 1024), (12 * 1024, 8 * 1024)]);
    assert_eq!(s.total_len(), 16 * 1024);
}

#[test]
fn subranges_remove_prefix_suffix_and_whole() {
    let mut s = SubRanges::from_section(1000, 1000);
    s.remove(900, 200); // [1000,1100) trimmed off the front
    assert_eq!(s.ranges(), &[(1100, 900)]);
    let mut s = SubRanges::from_section(1000, 1000);
    s.remove(1800, 500); // [1800,2000) trimmed off the back
    assert_eq!(s.ranges(), &[(1000, 800)]);
    let mut s = SubRanges::from_section(1000, 1000);
    s.remove(1000, 1000);
    assert!(s.is_empty());
    let mut s = SubRanges::from_section(1000, 1000);
    s.remove(0, 100_000);
    assert!(s.is_empty());
}

#[test]
fn subranges_remove_gap_and_zero_are_noops() {
    let mut s = SubRanges::from_section(1000, 1000);
    s.remove(5000, 1000); // disjoint, after
    s.remove(0, 500); // disjoint, before
    s.remove(1200, 0); // zero-len
    assert_eq!(s.ranges(), &[(1000, 1000)]);
}

#[test]
fn subranges_remove_spanning_two_ranges() {
    let mut s = SubRanges::from_section(0, 4096);
    s.remove(1024, 1024); // -> [0,1024) + [2048,4096)
    assert_eq!(s.ranges(), &[(0, 1024), (2048, 2048)]);
    s.remove(512, 2048); // covers tail of first + head of second
    assert_eq!(s.ranges(), &[(0, 512), (2560, 1536)]);
}

#[test]
fn removals_in_either_order_leave_the_same() {
    let mut a = SubRanges::from_section(0, 10_000);
    a.remove(100, 500);
    a.remove(400, 2_000);
    let mut b = SubRanges::from_section(0, 10_000);
    b.remove(400, 2_000);
    b.remove(100, 500);
    assert_eq!(a.ranges(), b.ranges());
    assert_eq!(a, b);
    assert_eq!(a.ranges(), &[(0, 100), (2_400, 7_600)]);
}
