use hugepage_rs::align_to;
use hugepage_rs::default_allocator;
use hugepage_rs::parse_hugepage_size;
use hugepage_rs::HugePageAllocator;

#[test]
fn test_parse_hugepage_size() {
    // correct.
    assert_eq!(parse_hugepage_size("Hugepagesize:1024"), 1024);
    assert_eq!(parse_hugepage_size("Hugepagesize: 2 kB"), 2048);

    // wrong.
    assert_eq!(parse_hugepage_size("Hugepagesize:1kB"), -1);
    assert_eq!(parse_hugepage_size("Hugepagesize: 2kB"), -1);
}

#[test]
fn test_align_to() {
    assert_eq!(align_to(8, 4), 8);
    assert_eq!(align_to(8, 16), 16);
}

#[test]
fn test_parse_missing_report() {
    assert_eq!(parse_hugepage_size(""), -1);
    assert_eq!(parse_hugepage_size("HugePages_Total: 16\nHugePages_Free: 4"), -1);
}

#[test]
fn test_parse_first_matching_line_wins() {
    assert_eq!(parse_hugepage_size("Hugepagesize: 2 kB\nHugepagesize: 4 kB"), 2048);
}

#[test]
fn test_parse_label_in_realistic_report() {
    let report = "HugePages_Total:   16\n\
                  HugePages_Free:    16\n\
                  HugePages_Rsvd:     0\n\
                  HugePages_Surp:     0\n\
                  Hugepagesize:    2048 kB\n\
                  Hugetlb:         32768 kB\n";
    assert_eq!(parse_hugepage_size(report), 2048 * 1024);
}

#[test]
fn test_parse_missing_magnitude_field() {
    assert_eq!(parse_hugepage_size("Hugepagesize:"), 0);
    assert_eq!(parse_hugepage_size("Hugepagesize:   "), 0);
}

#[test]
fn test_parse_unrecognised_unit_left_unscaled() {
    assert_eq!(parse_hugepage_size("Hugepagesize: 2 MB"), 2);
    assert_eq!(parse_hugepage_size("Hugepagesize: 7 kb"), 7);
}

#[test]
fn test_parse_other_separators() {
    assert_eq!(parse_hugepage_size("Hugepagesize:\t2 kB"), 2048);
    assert_eq!(parse_hugepage_size("Hugepagesize: 2 kB\r\nHugetlb: 4 kB\r\n"), 2048);
}

#[test]
fn test_parse_signed_magnitudes() {
    assert_eq!(parse_hugepage_size("Hugepagesize: -3"), -3);
    assert_eq!(parse_hugepage_size("Hugepagesize: +3 kB"), 3072);
}

#[test]
fn test_parse_label_must_start_line() {
    assert_eq!(parse_hugepage_size(" Hugepagesize: 2 kB"), -1);
    assert_eq!(parse_hugepage_size("xHugepagesize: 2 kB"), -1);
}

#[test]
fn test_parse_overflowing_magnitude() {
    // Does not fit in the result type at all.
    assert_eq!(parse_hugepage_size("Hugepagesize: 99999999999999999999"), -1);
    // Fits unscaled, but not once scaled by the unit.
    assert_eq!(parse_hugepage_size("Hugepagesize: 9223372036854775807 kB"), -1);
}

#[test]
fn test_parse_non_integer_magnitude() {
    assert_eq!(parse_hugepage_size("Hugepagesize: two kB"), -1);
    assert_eq!(parse_hugepage_size("Hugepagesize: -"), -1);
}

#[test]
fn test_align_to_more() {
    assert_eq!(align_to(0, 16), 0);
    assert_eq!(align_to(16, 16), 16);
    assert_eq!(align_to(17, 16), 32);
    assert_eq!(align_to(1, 1), 1);
}

#[test]
fn test_allocator_rounds_requests() {
    let a = HugePageAllocator::new(2 * 1024 * 1024);
    assert_eq!(a.granularity(), 2 * 1024 * 1024);
    assert_eq!(a.mapping_len(1), Some(2 * 1024 * 1024));
    assert_eq!(a.mapping_len(2 * 1024 * 1024), Some(2 * 1024 * 1024));
    assert_eq!(a.mapping_len(2 * 1024 * 1024 + 1), Some(4 * 1024 * 1024));
    assert_eq!(a.mapping_len(0), Some(0));
}

#[test]
fn test_allocator_degrades_cleanly_without_granularity() {
    // Absent report: the sentinel granularity makes every request a clean,
    // deterministic failure.
    let a = default_allocator("");
    assert_eq!(a.granularity(), -1);
    assert_eq!(a.mapping_len(100), None);
    assert_eq!(a.mapping_len(0), None);
}

#[test]
fn test_allocator_rejects_degenerate_granularity() {
    assert_eq!(HugePageAllocator::new(0).mapping_len(8), None);
    assert_eq!(HugePageAllocator::new(3).mapping_len(8), None);
    assert_eq!(HugePageAllocator::new(-2).mapping_len(8), None);
}

#[test]
fn test_default_allocator_reads_report() {
    let a = default_allocator("Hugepagesize:    2048 kB\n");
    assert_eq!(a.granularity(), 2048 * 1024);
    assert_eq!(a.mapping_len(10), Some(2048 * 1024));
}

#[test]
fn test_boxed() {
    // variable.
    {
        let mut v = hugepage_rs::Box::new(5);
        let cur = *v.get();
        v.set(cur + 42);
        assert_eq!(*v.get(), 47);
    }

    // array.
    {
        let src: [u32; 4] = [1, 2, 3, 4];
        let mut v = hugepage_rs::Box::new(src);
        assert_eq!(v.get(), &src);

        let mut arr = *v.get();
        arr[0] = 2;
        v.set(arr);
        assert_ne!(v.get(), &src);
        assert_eq!(v.get(), &[2, 2, 3, 4]);
    }
}

#[test]
fn test_boxed_layout_matches_value_type() {
    let v = hugepage_rs::Box::new(7u16);
    let (size, align) = v.region_layout();
    assert_eq!(size, std::mem::size_of::<u16>());
    assert_eq!(align, std::mem::align_of::<u16>());
    assert_eq!(v.into_inner(), 7u16);
}

#[test]
fn test_write_read_fidelity() {
    let mut v = hugepage_rs::Box::new(0u16);
    v.set(20);
    assert_eq!(*v.get(), 20);

    let pattern = vec![20u16; 2048];
    let buf = hugepage_rs::Box::new(pattern.clone());
    assert_eq!(buf.get(), &pattern);
}
