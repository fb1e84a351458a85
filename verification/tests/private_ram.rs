use tmk_vmm::cca_ram::{
    build, contiguous_subpfns, private_ram_range, select_ram_start, PrivateRamError,
    PrivateRamSearch, SearchStep,
};
use tmk_vmm::options::HypervisorOpt;

#[test]
fn a_stretch_is_found_among_unordered_pages() {
    let pfns = [9, 3, 2, 20, 21, 1, 22];
    assert_eq!(contiguous_subpfns(&pfns, 3 * 4096), Some(vec![1, 2, 3]));
    assert_eq!(contiguous_subpfns(&pfns, 2 * 4096 + 1), Some(vec![1, 2, 3]));
    assert_eq!(contiguous_subpfns(&pfns, 2 * 4096), Some(vec![1, 2]));
    assert_eq!(contiguous_subpfns(&pfns, 4 * 4096), None);
}

#[test]
fn no_page_is_a_stretch_of_none() {
    assert_eq!(contiguous_subpfns(&[], 0), Some(vec![]));
    assert_eq!(contiguous_subpfns(&[5], 0), Some(vec![]));
    assert_eq!(contiguous_subpfns(&[], 1), None);
}

#[test]
fn a_later_stretch_may_be_the_long_one() {
    let pfns = [1, 2, 10, 11, 12, 30];
    assert_eq!(contiguous_subpfns(&pfns, 3 * 4096), Some(vec![10, 11, 12]));
}

#[test]
fn memory_starts_aligned() {
    let pfns: Vec<u64> = (3..20).collect();
    let asking = 8192 + 28672;
    assert_eq!(select_ram_start(&pfns, 8192, asking), Some(8));
    assert_eq!(select_ram_start(&[8, 9], 8192, asking), None);
}

#[test]
fn a_large_enough_stretch_always_serves() {
    for first in 0..16u64 {
        let pfns: Vec<u64> = (first..first + 9).collect();
        let start = select_ram_start(&pfns, 8192, 8192 + 28672).unwrap();
        assert_eq!(start % 8, 0);
        assert!(pfns.contains(&start) && pfns.contains(&(start + 1)));
    }
}

#[test]
fn a_search_doubles_and_gives_up() {
    let mut search = PrivateRamSearch::new(8192).unwrap();
    assert_eq!(search.map_size(), 36864);
    assert_eq!(search.on_allocated(&[1, 3]), SearchStep::Allocate(73728));
    assert_eq!(search.map_size(), 73728);
    assert_eq!(search.on_allocated(&[]), SearchStep::Allocate(147456));
    assert_eq!(search.on_allocated(&[]), SearchStep::Allocate(294912));
    assert_eq!(search.on_allocated(&[]), SearchStep::Failed(PrivateRamError::Exhausted));
}

#[test]
fn a_search_ends_where_memory_is_found() {
    let mut search = PrivateRamSearch::new(8192).unwrap();
    let pfns: Vec<u64> = (100..120).collect();
    assert_eq!(search.on_allocated(&pfns), SearchStep::Selected(104));
}

#[test]
fn a_search_may_be_too_large() {
    assert_eq!(
        PrivateRamSearch::new(u64::MAX).map(|s| s.map_size()),
        Err(PrivateRamError::SearchSizeOverflow)
    );
    let mut search = PrivateRamSearch::new(u64::MAX - 28672).unwrap();
    assert_eq!(
        search.on_allocated(&[]),
        SearchStep::Failed(PrivateRamError::RetrySizeOverflow)
    );
}

#[test]
fn only_a_realm_has_private_memory() {
    assert!(build(HypervisorOpt::Other, u64::MAX).unwrap().is_none());
    assert!(build(HypervisorOpt::Cca, 4096).unwrap().is_some());
    assert_eq!(
        build(HypervisorOpt::Cca, u64::MAX).map(|s| s.is_some()),
        Err(PrivateRamError::SearchSizeOverflow)
    );
}

#[test]
fn private_memory_has_a_range() {
    let range = private_ram_range(8, 8192).unwrap();
    assert_eq!((range.get_start(), range.get_end()), (32768, 40960));
    assert_eq!(
        private_ram_range(u64::MAX / 4096, u64::MAX),
        Err(PrivateRamError::RangeOverflow)
    );
}

#[test]
fn private_memory_errors_have_messages() {
    for (error, text) in [
        (PrivateRamError::SearchSizeOverflow, "private CCA RAM search size overflowed"),
        (PrivateRamError::SearchSizeTooLarge, "private CCA RAM search size does not fit usize"),
        (
            PrivateRamError::RetrySizeOverflow,
            "private CCA RAM allocation size overflowed while retrying",
        ),
        (
            PrivateRamError::Exhausted,
            "failed to allocate private CCA RAM with 8192 contiguous bytes after 4 attempts",
        ),
        (PrivateRamError::RangeOverflow, "private CCA RAM range overflowed"),
    ] {
        assert_eq!(error.message(8192), text);
    }
}
