//! Ranges of guest physical memory.

use vstd::prelude::*;

verus! {

/// A range of guest physical addresses.
#[derive(Clone, Copy, Debug, PartialEq, Eq, Structural)]
pub struct MemoryRange {
    first: u64,
    limit: u64,
}

impl MemoryRange {
    /// The first address of the range.
    pub closed spec fn start(self) -> u64 {
        self.first
    }

    /// The address behind the range.
    pub closed spec fn end(self) -> u64 {
        self.limit
    }

    /// The range does not end before it starts.
    pub open spec fn wf(self) -> bool {
        self.start() <= self.end()
    }

    /// The address lies in the range.
    pub open spec fn holds(self, address: u64) -> bool {
        self.start() <= address < self.end()
    }

    /// The range from one address up to another.
    pub fn new(start: u64, end: u64) -> (r: Self)
        requires
            start <= end,
        ensures
            r.wf(),
            r.start() == start,
            r.end() == end,
    {
        MemoryRange { first: start, limit: end }
    }

    /// Returns the first address.
    pub fn get_start(&self) -> (a: u64)
        ensures
            a == self.start(),
    {
        self.first
    }

    /// Returns the address behind the range.
    pub fn get_end(&self) -> (a: u64)
        ensures
            a == self.end(),
    {
        self.limit
    }

    /// Returns the size of the range.
    pub fn len(&self) -> (n: u64)
        requires
            self.wf(),
        ensures
            n == self.end() - self.start(),
    {
        self.limit - self.first
    }

    /// Tells whether an address lies in the range.
    pub fn contains_addr(&self, address: u64) -> (b: bool)
        ensures
            b == self.holds(address),
    {
        self.first <= address && address < self.limit
    }
}

/// A range holds as many addresses as it is long: the ones from its start on, and no others.
pub proof fn lemma_range_holds_its_addresses(range: MemoryRange, address: u64)
    requires
        range.wf(),
    ensures
        range.holds(address) <==> exists|i: int|
            0 <= i < range.end() - range.start() && address == #[trigger] (range.start() + i),
{
    if range.holds(address) {
        let i = address - range.start();
        assert(address == range.start() + i);
    }
}

} // verus!
