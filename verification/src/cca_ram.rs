//! Private guest memory for a realm: the search for a physically contiguous, suitably aligned
//! stretch of locked pages.

use crate::memory::MemoryRange;
use crate::options::HypervisorOpt;
use crate::sort::{merge_sort, sorted_by_key, Keyed};
use crate::text::{decimal_digits, digits_value, lemma_decimal_reads_back, push_decimal};
use vstd::prelude::*;
use vstd::relations::{sorted_by, total_ordering};
use vstd::slice::slice_subrange;
use vstd::string::*;

verus! {

/// The size of a page.
pub const PAGE_SIZE: u64 = 4096;

/// The alignment of guest memory: one byte of a page bitmap.
pub const BITMAP_ALIGNMENT: u64 = 32768;

/// How often an allocation is tried, with twice the size each time.
pub const MAX_ALLOC_ATTEMPTS: u32 = 4;

/// How many pages hold `size` bytes.
pub open spec fn pages(size: nat) -> nat {
    (size + 4095) / 4096
}

/// Page numbers in ascending order.
pub open spec fn ascending(pfns: Seq<u64>) -> Seq<u64> {
    pfns.sort_by(|x: u64, y: u64| x <= y)
}

/// Each page number is the one before plus one.
pub open spec fn consecutive(s: Seq<u64>) -> bool {
    forall|i: int| 0 <= i < s.len() ==> #[trigger] s[i] == s[0] + i
}

/// `n` page numbers from position `k` on are consecutive.
pub open spec fn window(s: Seq<u64>, k: int, n: nat) -> bool {
    &&& 0 <= k
    &&& k + n <= s.len()
    &&& consecutive(s.subrange(k, k + n))
}

/// `k` is the first position from which `n` page numbers are consecutive.
pub open spec fn first_window(s: Seq<u64>, k: int, n: nat) -> bool {
    &&& window(s, k, n)
    &&& forall|j: int| 0 <= j < k ==> !window(s, j, n)
}

proof fn lemma_ascending_is_the_sorted_one(pfns: Seq<u64>, s: Seq<u64>)
    requires
        sorted_by_key(s),
        s.to_multiset() == pfns.to_multiset(),
    ensures
        s == ascending(pfns),
{
    let leq = |x: u64, y: u64| x <= y;
    pfns.lemma_sort_by_ensures(leq);
    assert(sorted_by(s, leq)) by {
        assert forall|i: int, j: int| 0 <= i < j < s.len() implies #[trigger] leq(s[i], s[j]) by {
            assert(s[i].key() <= s[j].key());
        }
    }
    vstd::seq_lib::lemma_sorted_unique(s, ascending(pfns), leq);
}

/// The pages of an allocation in ascending order, of which the first stretch of consecutive pages
/// that holds `asking_size` bytes is wanted.
pub fn contiguous_subpfns(pfns: &[u64], asking_size: usize) -> (r: Option<Vec<u64>>)
    ensures
        match r {
            Some(v) => exists|k: int|
                #[trigger] first_window(ascending(pfns@), k, pages(asking_size as nat)) && v@
                    == ascending(pfns@).subrange(k, k + pages(asking_size as nat)),
            None => forall|k: int| !window(ascending(pfns@), k, pages(asking_size as nat)),
        },
{
    let page_count: usize = asking_size / 4096 + if asking_size % 4096 == 0 {
        0
    } else {
        1
    };
    let ghost s = ascending(pfns@);
    if page_count == 0 {
        let v: Vec<u64> = Vec::new();
        proof {
            assert(s.subrange(0, 0) =~= v@);
            assert(pages(asking_size as nat) == 0);
            assert(first_window(s, 0, pages(asking_size as nat)));
        }
        return Some(v);
    }
    let sorted = merge_sort(pfns);
    proof {
        lemma_ascending_is_the_sorted_one(pfns@, sorted@);
    }
    let mut run_start: usize = 0;
    let mut i: usize = 1;
    let mut done: bool = sorted.len() == 0;
    while !done
        invariant
            page_count == pages(asking_size as nat) > 0,
            s == sorted@,
            s == ascending(pfns@),
            sorted_by_key(sorted@),
            run_start <= sorted@.len(),
            !done ==> run_start < i <= sorted@.len(),
            !done ==> consecutive(s.subrange(run_start as int, i as int)),
            done ==> run_start == sorted@.len(),
            forall|j: int| 0 <= j < run_start ==> !window(s, j, page_count as nat),
            run_start == 0 || run_start == sorted@.len() || s[run_start - 1] + 1
                != s[run_start as int],
        decreases
            if done {
                0
            } else {
                sorted@.len() + 1 - i
            },
    {
        let run_ended = if i == sorted.len() {
            true
        } else {
            proof {
                assert(s[i - 1].key() <= s[i as int].key());
            }
            sorted[i] - sorted[i - 1] != 1
        };
        if run_ended {
            if i - run_start >= page_count {
                proof {
                    let run = s.subrange(run_start as int, i as int);
                    let part = s.subrange(run_start as int, run_start + page_count);
                    assert forall|x: int| 0 <= x < part.len() implies #[trigger] part[x] == part[0]
                        + x by {
                        assert(part[x] == run[x]);
                        assert(part[0] == run[0]);
                    }
                    assert(first_window(s, run_start as int, page_count as nat));
                }
                let end: usize = run_start + page_count;
                return Some(vstd::slice::slice_to_vec(slice_subrange(
                    sorted.as_slice(),
                    run_start,
                    end,
                )));
            }
            proof {
                assert forall|j: int| 0 <= j < i implies !window(s, j, page_count as nat) by {
                    if j >= run_start {
                        if window(s, j, page_count as nat) {
                            let w = s.subrange(j, j + page_count);
                            if i < sorted@.len() {
                                assert(w[i - 1 - j] == s[i - 1]);
                                assert(w[i - j] == s[i as int]);
                                assert(false);
                            }
                        }
                    }
                }
                if i < sorted@.len() {
                    assert(s.subrange(i as int, i + 1).len() == 1);
                    assert(consecutive(s.subrange(i as int, i + 1)));
                }
            }
            run_start = i;
        } else {
            proof {
                let run = s.subrange(run_start as int, i as int);
                let longer = s.subrange(run_start as int, i + 1);
                assert forall|x: int| 0 <= x < longer.len() implies #[trigger] longer[x]
                    == longer[0] + x by {
                    assert(longer[0] == run[0]);
                    if x < run.len() {
                        assert(longer[x] == run[x]);
                    } else {
                        assert(run[run.len() - 1] == s[i - 1]);
                    }
                }
            }
        }
        if i == sorted.len() {
            done = true;
        } else {
            i = i + 1;
        }
    }
    proof {
        assert forall|k: int| !window(s, k, page_count as nat) by {
            if k >= run_start {
                assert(!window(s, k, page_count as nat));
            }
        }
    }
    None
}

/// The first stretch of `n` consecutive pages of an allocation, by its position among the pages in
/// ascending order.
pub open spec fn stretch(pfns: Seq<u64>, n: nat) -> Option<int> {
    if exists|k: int| first_window(ascending(pfns), k, n) {
        Some(choose|k: int| first_window(ascending(pfns), k, n))
    } else {
        None
    }
}

/// The lowest page number from `pfn` on whose address is aligned for a page bitmap.
pub open spec fn aligned_up(pfn: int) -> int {
    pfn + (8 - pfn % 8) % 8
}

/// The page that guest memory of `ram_size` bytes starts at: the first aligned page of the first
/// stretch that holds `asking_size` bytes, if the stretch goes on for long enough from there.
pub open spec fn selected(pfns: Seq<u64>, ram_size: nat, asking_size: nat) -> Option<u64> {
    match stretch(pfns, pages(asking_size)) {
        None => None,
        Some(k) => {
            let first = ascending(pfns)[k] as int;
            let skipped = aligned_up(first) - first;
            if skipped < pages(asking_size) && skipped + pages(ram_size) <= pages(asking_size) {
                Some(aligned_up(first) as u64)
            } else {
                None
            }
        },
    }
}

/// Finds the page that guest memory starts at in the pages of an allocation.
pub fn select_ram_start(pfns: &[u64], ram_size: usize, asking_size: usize) -> (r: Option<u64>)
    ensures
        r == selected(pfns@, ram_size as nat, asking_size as nat),
{
    let run = match contiguous_subpfns(pfns, asking_size) {
        None => {
            return None;
        },
        Some(run) => run,
    };
    let ghost s = ascending(pfns@);
    let ghost n = pages(asking_size as nat);
    let ghost k = choose|k: int| #[trigger] first_window(s, k, n) && run@ == s.subrange(k, k + n);
    proof {
        let k2 = choose|k: int| first_window(s, k, n);
        assert(k == k2) by {
            if k < k2 {
                assert(window(s, k, n));
            }
            if k2 < k {
                assert(window(s, k2, n));
            }
        }
    }
    let page_count: usize = ram_size / 4096 + if ram_size % 4096 == 0 {
        0
    } else {
        1
    };
    let mut i: usize = 0;
    while i < run.len()
        invariant
            i <= run@.len(),
            run@.len() == n,
            n == pages(asking_size as nat),
            page_count == pages(ram_size as nat),
            consecutive(run@),
            forall|j: int| 0 <= j < i ==> #[trigger] run@[j] % 8 != 0,
            stretch(pfns@, n) == Some(k),
            run@.len() > 0 ==> run@[0] == ascending(pfns@)[k],
        decreases run@.len() - i,
    {
        assert(run@[i as int] == run@[0] + i);
        if run[i] % 8 == 0 {
            proof {
                lemma_aligned_up(run@, i as int);
            }
            if run.len() - i >= page_count {
                return Some(run[i]);
            }
            return None;
        }
        i = i + 1;
    }
    proof {
        if run@.len() > 0 {
            let first = run@[0] as int;
            let skipped = aligned_up(first) - first;
            if skipped < run@.len() {
                assert(run@[skipped] == run@[0] + skipped);
            }
        }
    }
    None
}

proof fn lemma_aligned_up(run: Seq<u64>, i: int)
    requires
        consecutive(run),
        0 <= i < run.len(),
        run[i] % 8 == 0,
        forall|j: int| 0 <= j < i ==> #[trigger] run[j] % 8 != 0,
    ensures
        aligned_up(run[0] as int) == run[i],
        aligned_up(run[0] as int) - run[0] == i,
{
    let first = run[0] as int;
    let skipped = aligned_up(first) - first;
    assert(run[i] == run[0] + i);
    if skipped < i {
        assert(run[skipped] == run[0] + skipped);
    }
}

/// A stretch with seven pages to spare always holds guest memory of at least one page.
pub proof fn lemma_stretch_is_enough(pfns: Seq<u64>, ram_size: nat)
    requires
        ram_size > 0,
        stretch(pfns, pages(ram_size + 28672)) is Some,
    ensures
        selected(pfns, ram_size, ram_size + 28672) is Some,
{
    assert(pages(ram_size + 28672) == pages(ram_size) + 7);
    assert(pages(ram_size) >= 1);
}

/// The selected page is aligned, and it and the pages behind it up to the size of guest memory
/// are pages of the allocation.
pub proof fn lemma_selected_pages_are_allocated(
    pfns: Seq<u64>,
    ram_size: nat,
    asking_size: nat,
    i: int,
)
    requires
        selected(pfns, ram_size, asking_size) is Some,
        0 <= i < pages(ram_size),
    ensures
        (selected(pfns, ram_size, asking_size)->0 * 4096) % 32768 == 0,
        holds_page(pfns, selected(pfns, ram_size, asking_size)->0 + i),
{
    let n = pages(asking_size);
    let s = ascending(pfns);
    let k = stretch(pfns, n)->0;
    assert(first_window(s, k, n));
    let run = s.subrange(k, k + n);
    let first = s[k] as int;
    let skipped = aligned_up(first) - first;
    assert(run[0] == s[k]);
    assert(run[skipped] == run[0] + skipped);
    assert(run[skipped + i] == run[0] + (skipped + i));
    assert(s[k + skipped + i] == run[skipped + i]);
    assert(s.contains(s[k + skipped + i]));
    pfns.lemma_sort_by_ensures(|x: u64, y: u64| x <= y);
}

/// A page is one of an allocation.
pub open spec fn holds_page(pfns: Seq<u64>, pfn: int) -> bool {
    0 <= pfn <= u64::MAX && pfns.contains(pfn as u64)
}

/// An allocation without duplicates that holds `n` consecutive pages has a stretch, which starts at
/// those pages or lower.
pub proof fn lemma_stretch_is_lowest(pfns: Seq<u64>, n: nat, start: u64)
    requires
        pfns.no_duplicates(),
        n > 0,
        forall|x: int| start <= x < start + n ==> #[trigger] holds_page(pfns, x),
    ensures
        stretch(pfns, n) is Some,
        ascending(pfns)[stretch(pfns, n)->0] <= start,
{
    let leq = |x: u64, y: u64| x <= y;
    let s = ascending(pfns);
    pfns.lemma_sort_by_ensures(leq);
    assert(s.no_duplicates()) by {
        lemma_permutation_without_duplicates(pfns, s);
    }
    assert(holds_page(pfns, start as int));
    assert(s.contains(start)) by {
        broadcast use vstd::seq_lib::group_to_multiset_ensures;
        assert(pfns.to_multiset().count(start) > 0);
        assert(s.to_multiset().count(start) > 0);
    }
    let p = s.index_of(start);
    assert(s[p] == start);
    lemma_consecutive_from(pfns, s, start, p, n);
    assert(window(s, p, n));
    lemma_some_first_window(s, p, n);
    let k = stretch(pfns, n)->0;
    assert(first_window(s, k, n));
    assert(k <= p);
    if k < p {
        assert(leq(s[k], s[p]));
    }
}

proof fn lemma_permutation_without_duplicates(a: Seq<u64>, b: Seq<u64>)
    requires
        a.no_duplicates(),
        a.to_multiset() == b.to_multiset(),
    ensures
        b.no_duplicates(),
{
    a.lemma_multiset_has_no_duplicates();
    b.lemma_multiset_has_no_duplicates_conv();
}

proof fn lemma_consecutive_from(pfns: Seq<u64>, s: Seq<u64>, start: u64, p: int, n: nat)
    requires
        s == ascending(pfns),
        s.no_duplicates(),
        0 <= p < s.len(),
        s[p] == start,
        n > 0,
        forall|x: int| start <= x < start + n ==> #[trigger] holds_page(pfns, x),
    ensures
        window(s, p, n),
    decreases n,
{
    let leq = |x: u64, y: u64| x <= y;
    pfns.lemma_sort_by_ensures(leq);
    if n == 1 {
        assert(s.subrange(p, p + 1).len() == 1);
    } else {
        let m = (n - 1) as nat;
        lemma_consecutive_from(pfns, s, start, p, m);
        let w = s.subrange(p, p + m);
        assert(w[m - 1] == w[0] + (m - 1));
        assert(s[p + m - 1] == start + (m - 1));
        let next = (start + m) as u64;
        assert(holds_page(pfns, start + m));
        assert(s.contains(next)) by {
            broadcast use vstd::seq_lib::group_to_multiset_ensures;
            assert(pfns.to_multiset().count(next) > 0);
            assert(s.to_multiset().count(next) > 0);
        }
        let q = s.index_of(next);
        assert(s[q] == next);
        if q < p + m - 1 {
            assert(leq(s[q], s[p + m - 1]));
        }
        if q > p + m {
            assert(leq(s[p + m - 1], s[p + m]));
            assert(leq(s[p + m], s[q]));
            assert(s[p + m] != s[p + m - 1]);
            assert(s[p + m] != s[q]);
        }
        assert(q == p + m);
        let longer = s.subrange(p, p + n);
        assert forall|x: int| 0 <= x < longer.len() implies #[trigger] longer[x] == longer[0]
            + x by {
            assert(longer[0] == w[0]);
            if x < m {
                assert(longer[x] == w[x]);
            }
        }
    }
}

proof fn lemma_some_first_window(s: Seq<u64>, p: int, n: nat)
    requires
        window(s, p, n),
    ensures
        exists|k: int| first_window(s, k, n),
    decreases p,
{
    if exists|j: int| 0 <= j < p && window(s, j, n) {
        let j = choose|j: int| 0 <= j < p && window(s, j, n);
        lemma_some_first_window(s, j, n);
    } else {
        assert(first_window(s, p, n));
    }
}

/// Why no private memory can be had.
#[derive(Clone, Copy, Debug, PartialEq, Eq, Structural)]
pub enum PrivateRamError {
    /// The size to search for does not fit 64 bits.
    SearchSizeOverflow,
    /// The size to search for does not fit an address.
    SearchSizeTooLarge,
    /// The size of the next attempt does not fit an address.
    RetrySizeOverflow,
    /// Every attempt has failed.
    Exhausted,
    /// The end of the memory does not fit 64 bits.
    RangeOverflow,
}

impl PrivateRamError {
    /// The error of a search for `ram_size` bytes as a text.
    pub open spec fn text(self, ram_size: u64) -> Seq<char> {
        match self {
            PrivateRamError::SearchSizeOverflow => "private CCA RAM search size overflowed"@,
            PrivateRamError::SearchSizeTooLarge =>
                "private CCA RAM search size does not fit usize"@,
            PrivateRamError::RetrySizeOverflow =>
                "private CCA RAM allocation size overflowed while retrying"@,
            PrivateRamError::Exhausted => "failed to allocate private CCA RAM with "@
                + decimal_digits(ram_size as nat) + " contiguous bytes after "@ + decimal_digits(
                MAX_ALLOC_ATTEMPTS as nat,
            ) + " attempts"@,
            PrivateRamError::RangeOverflow => "private CCA RAM range overflowed"@,
        }
    }

    /// Returns the error of a search for `ram_size` bytes as a text.
    pub fn message(self, ram_size: u64) -> (s: String)
        ensures
            s@ == self.text(ram_size),
    {
        match self {
            PrivateRamError::SearchSizeOverflow => {
                "private CCA RAM search size overflowed".to_owned()
            },
            PrivateRamError::SearchSizeTooLarge => {
                "private CCA RAM search size does not fit usize".to_owned()
            },
            PrivateRamError::RetrySizeOverflow => {
                "private CCA RAM allocation size overflowed while retrying".to_owned()
            },
            PrivateRamError::Exhausted => {
                let mut s = "failed to allocate private CCA RAM with ".to_owned();
                push_decimal(&mut s, ram_size);
                s.append(" contiguous bytes after ");
                push_decimal(&mut s, MAX_ALLOC_ATTEMPTS as u64);
                s.append(" attempts");
                s
            },
            PrivateRamError::RangeOverflow => "private CCA RAM range overflowed".to_owned(),
        }
    }
}

/// What follows an allocation.
#[derive(Clone, Copy, Debug, PartialEq, Eq, Structural)]
pub enum SearchStep {
    /// Guest memory starts at this page of the allocation.
    Selected(u64),
    /// The allocation is given up, and one of this size is tried.
    Allocate(usize),
    /// The search has failed.
    Failed(PrivateRamError),
}

/// A search for private guest memory.
#[derive(Clone, Copy, Debug)]
pub struct PrivateRamSearch {
    ram_size: u64,
    asking_size: usize,
    map_size: usize,
    attempt: u32,
}

/// Twice as much for each attempt.
pub open spec fn doubled(size: nat, times: nat) -> nat
    decreases times,
{
    if times == 0 {
        size
    } else {
        2 * doubled(size, (times - 1) as nat)
    }
}

impl PrivateRamSearch {
    /// The size of guest memory.
    pub closed spec fn ram(self) -> nat {
        self.ram_size as nat
    }

    /// The size that holds guest memory at any alignment.
    pub closed spec fn asking(self) -> nat {
        self.asking_size as nat
    }

    /// The size of the allocation that is under way.
    pub closed spec fn map(self) -> nat {
        self.map_size as nat
    }

    /// How many allocations came before.
    pub closed spec fn attempts(self) -> nat {
        self.attempt as nat
    }

    /// The search leaves room for alignment, doubles the allocation each time, and ends after a
    /// fixed number of attempts.
    pub open spec fn wf(self) -> bool {
        &&& self.asking() == self.ram() + 28672
        &&& self.asking() <= usize::MAX
        &&& self.ram() <= u64::MAX
        &&& self.attempts() < MAX_ALLOC_ATTEMPTS
        &&& self.map() == doubled(self.asking(), self.attempts())
        &&& self.map() <= usize::MAX
    }

    /// Starts a search for memory of `ram_size` bytes.
    pub fn new(ram_size: u64) -> (r: Result<Self, PrivateRamError>)
        ensures
            match r {
                Ok(s) => s.wf() && s.ram() == ram_size && s.attempts() == 0,
                Err(PrivateRamError::SearchSizeOverflow) => ram_size + 28672 > u64::MAX,
                Err(PrivateRamError::SearchSizeTooLarge) => usize::MAX < ram_size + 28672
                    <= u64::MAX,
                Err(_) => false,
            },
    {
        let asking_size: u64 = match ram_size.checked_add(BITMAP_ALIGNMENT - PAGE_SIZE) {
            Some(size) => size,
            None => {
                return Err(PrivateRamError::SearchSizeOverflow);
            },
        };
        if asking_size > usize::MAX as u64 {
            return Err(PrivateRamError::SearchSizeTooLarge);
        }
        let size: usize = asking_size as usize;
        Ok(PrivateRamSearch { ram_size, asking_size: size, map_size: size, attempt: 0 })
    }

    /// Returns the size to allocate.
    pub fn map_size(&self) -> (size: usize)
        ensures
            size == self.map(),
    {
        self.map_size
    }

    /// Takes the pages of the allocation that was asked for.
    pub fn on_allocated(&mut self, pfns: &[u64]) -> (step: SearchStep)
        requires
            old(self).wf(),
        ensures
            match selected(pfns@, old(self).ram(), old(self).asking()) {
                Some(pfn) => step == SearchStep::Selected(pfn) && *final(self) == *old(self),
                None => if 2 * old(self).map() > usize::MAX {
                    step == SearchStep::Failed(PrivateRamError::RetrySizeOverflow)
                        && *final(self) == *old(self)
                } else if old(self).attempts() + 1 == MAX_ALLOC_ATTEMPTS {
                    step == SearchStep::Failed(PrivateRamError::Exhausted) && *final(self)
                        == *old(self)
                } else {
                    &&& step == SearchStep::Allocate((2 * old(self).map()) as usize)
                    &&& final(self).wf()
                    &&& final(self).ram() == old(self).ram()
                    &&& final(self).attempts() == old(self).attempts() + 1
                },
            },
    {
        if let Some(pfn) = select_ram_start(pfns, self.ram_size as usize, self.asking_size) {
            return SearchStep::Selected(pfn);
        }
        let next: usize = match self.map_size.checked_mul(2) {
            Some(size) => size,
            None => {
                return SearchStep::Failed(PrivateRamError::RetrySizeOverflow);
            },
        };
        if self.attempt + 1 == MAX_ALLOC_ATTEMPTS {
            return SearchStep::Failed(PrivateRamError::Exhausted);
        }
        self.map_size = next;
        self.attempt = self.attempt + 1;
        SearchStep::Allocate(next)
    }
}

/// Decides whether a hypervisor wants private memory, and starts the search for it.
pub fn build(hv: HypervisorOpt, ram_size: u64) -> (r: Result<
    Option<PrivateRamSearch>,
    PrivateRamError,
>)
    ensures
        match r {
            Ok(None) => hv != HypervisorOpt::Cca,
            Ok(Some(s)) => hv == HypervisorOpt::Cca && s.wf() && s.ram() == ram_size
                && s.attempts() == 0,
            Err(PrivateRamError::SearchSizeOverflow) => hv == HypervisorOpt::Cca && ram_size
                + 28672 > u64::MAX,
            Err(PrivateRamError::SearchSizeTooLarge) => hv == HypervisorOpt::Cca && usize::MAX
                < ram_size + 28672 <= u64::MAX,
            Err(_) => false,
        },
{
    match hv {
        HypervisorOpt::Cca => match PrivateRamSearch::new(ram_size) {
            Ok(s) => Ok(Some(s)),
            Err(e) => Err(e),
        },
        HypervisorOpt::Other => Ok(None),
    }
}

/// The range of guest memory that starts at a page.
pub fn private_ram_range(pfn: u64, ram_size: u64) -> (r: Result<MemoryRange, PrivateRamError>)
    requires
        pfn * 4096 <= u64::MAX,
    ensures
        match r {
            Ok(range) => range.wf() && range.start() == pfn * 4096 && range.end() == pfn * 4096
                + ram_size,
            Err(e) => e == PrivateRamError::RangeOverflow && pfn * 4096 + ram_size > u64::MAX,
        },
{
    let start: u64 = pfn * 4096;
    match start.checked_add(ram_size) {
        Some(end) => Ok(MemoryRange::new(start, end)),
        None => Err(PrivateRamError::RangeOverflow),
    }
}

/// As many pages are counted as are needed, and no more: they hold the size, and one page less
/// would not.
pub proof fn lemma_pages_hold_the_size(size: nat)
    ensures
        pages(size) * 4096 >= size,
        pages(size) > 0 ==> (pages(size) - 1) * 4096 < size,
        pages(size) == 0 <==> size == 0,
{
}

/// An allocation without duplicates that holds consecutive pages for guest memory and for its
/// alignment is one that guest memory is selected from, in these pages or lower.
pub proof fn lemma_enough_pages_are_selected_from(
    pfns: Seq<u64>,
    ram_size: nat,
    start: u64,
    n: nat,
)
    requires
        pfns.no_duplicates(),
        ram_size > 0,
        n * 4096 >= ram_size + 0x7000,
        forall|x: int| start <= x < start + n ==> #[trigger] holds_page(pfns, x),
    ensures
        selected(pfns, ram_size, ram_size + 0x7000) is Some,
        selected(pfns, ram_size, ram_size + 0x7000)->0 < start + 8,
{
    let needed = pages(ram_size + 0x7000);
    assert(needed <= n);
    assert(needed > 0);
    lemma_stretch_is_lowest(pfns, needed, start);
    lemma_stretch_is_enough(pfns, ram_size);
}

/// Guest memory that is selected starts at an aligned address, and every page that any of its bytes
/// lies in is a page of the allocation.
pub proof fn lemma_selected_memory_is_allocated(
    pfns: Seq<u64>,
    ram_size: nat,
    asking_size: nat,
    byte: int,
)
    requires
        selected(pfns, ram_size, asking_size) is Some,
        0 <= byte < ram_size,
    ensures
        (selected(pfns, ram_size, asking_size)->0 * 4096) % 0x8000 == 0,
        ({
            let address = selected(pfns, ram_size, asking_size)->0 * 4096 + byte;
            &&& 0 <= address / 4096 <= u64::MAX
            &&& pfns.contains((address / 4096) as u64)
        }),
{
    lemma_selected_pages_are_allocated(pfns, ram_size, asking_size, byte / 4096);
}

/// The stretch that is found is made of pages of the allocation, each following the one before, and
/// is exactly as long as it is asked to be.
pub proof fn lemma_stretch_is_made_of_the_allocation(pfns: Seq<u64>, n: nat, i: int)
    requires
        stretch(pfns, n) is Some,
        0 <= i < n,
    ensures
        ({
            let s = ascending(pfns);
            let k = stretch(pfns, n)->0;
            &&& 0 <= k && k + n <= s.len()
            &&& s[k + i] == s[k] + i
            &&& pfns.contains(s[k + i])
        }),
{
    let s = ascending(pfns);
    let k = stretch(pfns, n)->0;
    assert(first_window(s, k, n));
    let run = s.subrange(k, k + n);
    assert(run[0] == s[k]);
    assert(run[i] == run[0] + i);
    assert(s[k + i] == run[i]);
    assert(s.contains(s[k + i]));
    pfns.lemma_sort_by_ensures(|x: u64, y: u64| x <= y);
}

/// A search starts with the size of guest memory and seven pages more, and each of its attempts
/// asks for twice as much as the one before; there are four.
pub proof fn lemma_search_doubles(search: PrivateRamSearch)
    requires
        search.wf(),
    ensures
        search.attempts() < 4,
        search.attempts() == 0 ==> search.map() == search.ram() + 7 * 4096,
        search.attempts() == 1 ==> search.map() == 2 * (search.ram() + 7 * 4096),
        search.attempts() == 2 ==> search.map() == 4 * (search.ram() + 7 * 4096),
        search.attempts() == 3 ==> search.map() == 8 * (search.ram() + 7 * 4096),
{
    reveal_with_fuel(doubled, 4);
}

/// Guest memory starts at the first aligned page of the stretch that is found, never before it and
/// never eight pages behind its start.
pub proof fn lemma_first_aligned_page_is_selected(pfns: Seq<u64>, ram_size: nat, asking_size: nat)
    requires
        selected(pfns, ram_size, asking_size) is Some,
    ensures
        stretch(pfns, pages(asking_size)) is Some,
        ({
            let first = ascending(pfns)[stretch(pfns, pages(asking_size))->0] as int;
            let page = selected(pfns, ram_size, asking_size)->0 as int;
            &&& first <= page < first + 8
            &&& page % 8 == 0
        }),
{
    let n = pages(asking_size);
    let s = ascending(pfns);
    let k = stretch(pfns, n)->0;
    assert(first_window(s, k, n));
    let run = s.subrange(k, k + n);
    let skipped = aligned_up(s[k] as int) - s[k];
    assert(run[0] == s[k]);
    assert(run[skipped] == run[0] + skipped);
}

/// A search that has failed says how much memory it was for, and how often it has tried.
pub proof fn lemma_failed_search_says_the_size(ram_size: u64)
    ensures
        exists|digits: Seq<char>|
            {
                &&& PrivateRamError::Exhausted.text(ram_size)
                    == "failed to allocate private CCA RAM with "@ + digits
                    + " contiguous bytes after "@ + seq!['4'] + " attempts"@
                &&& #[trigger] digits_value(digits, 10) == ram_size
            },
{
    lemma_decimal_reads_back(ram_size as nat);
    let digits = decimal_digits(ram_size as nat);
    assert(decimal_digits(4) =~= seq!['4']);
    assert(digits_value(digits, 10) == ram_size);
}

} // verus!
