//! The table of live regions and the rules by which it grows and shrinks.
//!
//! The operating system creates and releases the mappings; this module keeps
//! the books. Each operation that needs the operating system is split around
//! the request: the caller asks for what the table decided, and hands the
//! answer back.

use vstd::prelude::*;

verus! {

/// The granularity of every mapping, in bytes.
pub const PAGE_SIZE: usize = 4096;

/// The code with which a request for an unusable length is turned down.
pub const INVALID_ARGUMENT: i32 = 22;

/// One mapping: where it starts and how many bytes it spans.
#[derive(Clone, Copy, Debug, PartialEq, Eq, Structural)]
pub struct Region {
    pub base_address: usize,
    pub size: usize,
}

/// Why an operation on the table or on a region was turned down.
#[derive(Clone, Copy, Debug, PartialEq, Eq, Structural)]
pub enum AllocError {
    /// The operating system declined to create a mapping; `code` is its reason.
    MappingFailed { code: i32 },
    /// The operating system declined to release a mapping; `code` is its reason.
    UnmapFailed { code: i32 },
    /// No live region starts at the given address.
    NotFound,
    /// The given position is not within the table.
    InvalidIndex,
}

/// The smallest positive multiple of the page size that is at least `size`.
pub open spec fn page_aligned(size: nat) -> nat {
    if size == 0 {
        4096
    } else {
        (((size + 4095) / 4096) * 4096) as nat
    }
}

/// Every region spans a positive whole number of pages.
pub open spec fn page_sized(table: Seq<Region>) -> bool {
    forall|i: int|
        0 <= i < table.len() ==> (#[trigger] table[i]).size > 0 && table[i].size % 4096 == 0
}

/// No two regions start at the same address.
pub open spec fn distinct_bases(table: Seq<Region>) -> bool {
    forall|i: int, j: int|
        0 <= i < j < table.len() ==> (#[trigger] table[i]).base_address != (
        #[trigger] table[j]).base_address
}

/// Some region of the table starts at `handle`.
pub open spec fn holds(table: Seq<Region>, handle: usize) -> bool {
    exists|i: int| 0 <= i < table.len() && (#[trigger] table[i]).base_address == handle
}

/// `index` is the position of the first region that starts at `handle`.
pub open spec fn first_at(table: Seq<Region>, handle: usize, index: int) -> bool {
    &&& 0 <= index < table.len()
    &&& table[index].base_address == handle
    &&& forall|j: int| 0 <= j < index ==> (#[trigger] table[j]).base_address != handle
}

/// The position of the first region that starts at `handle`, where the table
/// holds one.
pub open spec fn first_position(table: Seq<Region>, handle: usize) -> int {
    choose|index: int| first_at(table, handle, index)
}

/// What a listing of the table shows: position, base address and size of each
/// region, in table order.
pub open spec fn listing(table: Seq<Region>) -> Seq<(usize, usize, usize)> {
    Seq::new(table.len(), |i: int| (i as usize, table[i].base_address, table[i].size))
}

/// What a request for `size` bytes comes to, given the operating system's
/// answer to it: a region of the rounded size at the address it gave, or its
/// refusal. A size whose rounding no `usize` holds is turned down whatever
/// the answer.
pub open spec fn granted(size: usize, mapped: Result<usize, i32>) -> Result<Region, AllocError> {
    if page_aligned(size as nat) > usize::MAX {
        Err(AllocError::MappingFailed { code: INVALID_ARGUMENT })
    } else {
        match mapped {
            Ok(address) => Ok(
                Region { base_address: address, size: page_aligned(size as nat) as usize },
            ),
            Err(code) => Err(AllocError::MappingFailed { code }),
        }
    }
}

/// A table has at most one first region at an address.
pub proof fn first_is_unique(table: Seq<Region>, handle: usize, i: int, j: int)
    requires
        first_at(table, handle, i),
        first_at(table, handle, j),
    ensures
        i == j,
{
    if i < j {
        assert(table[i].base_address != handle);
    } else if j < i {
        assert(table[j].base_address != handle);
    }
}

/// The number of bytes to ask the operating system for when `size` bytes are
/// requested, or `None` where the rounded size is not a `usize`.
pub fn mapping_length(size: usize) -> (length: Option<usize>)
    ensures
        length == (if page_aligned(size as nat) <= usize::MAX {
            Some(page_aligned(size as nat) as usize)
        } else {
            None::<usize>
        }),
{
    if size == 0 {
        Some(PAGE_SIZE)
    } else {
        let pages: usize = (size - 1) / PAGE_SIZE + 1;
        assert(pages == (size + 4095) / 4096) by (nonlinear_arith)
            requires
                size > 0,
                pages == (size - 1) / 4096 + 1,
        ;
        pages.checked_mul(PAGE_SIZE)
    }
}

/// The live regions, in the order in which they were recorded.
pub struct MmapAllocator {
    memory_chunks: Vec<Region>,
}

impl View for MmapAllocator {
    type V = Seq<Region>;

    closed spec fn view(&self) -> Seq<Region> {
        self.memory_chunks@
    }
}

impl MmapAllocator {
    /// Every live region spans a positive whole number of pages.
    pub open spec fn wf(&self) -> bool {
        page_sized(self@)
    }

    /// An allocator with no live region.
    pub fn new() -> (allocator: Self)
        ensures
            allocator.wf(),
            allocator@ == Seq::<Region>::empty(),
    {
        MmapAllocator { memory_chunks: Vec::new() }
    }

    /// The number of live regions.
    pub fn len(&self) -> (count: usize)
        ensures
            count == self@.len(),
    {
        self.memory_chunks.len()
    }

    /// The region at `index`, if the table is that long.
    pub fn region_at(&self, index: usize) -> (region: Option<Region>)
        ensures
            region == (if index < self@.len() {
                Some(self@[index as int])
            } else {
                None::<Region>
            }),
    {
        if index < self.memory_chunks.len() {
            Some(self.memory_chunks[index])
        } else {
            None
        }
    }

    /// Records the answer to a request for `mapping_length(size)` bytes:
    /// `mapped` holds the base address of the new mapping, or the code with
    /// which the operating system declined. A new region goes to the end of
    /// the table; a refusal leaves the table as it was.
    pub fn allocate(&mut self, size: usize, mapped: Result<usize, i32>) -> (result: Result<
        Region,
        AllocError,
    >)
        ensures
            old(self).wf() ==> final(self).wf(),
            result == granted(size, mapped),
            final(self)@ == (match result {
                Ok(region) => old(self)@.push(region),
                Err(_) => old(self)@,
            }),
            distinct_bases(old(self)@) && (mapped matches Ok(address) ==> !holds(
                old(self)@,
                address,
            )) ==> distinct_bases(final(self)@),
    {
        match mapping_length(size) {
            None => Err(AllocError::MappingFailed { code: INVALID_ARGUMENT }),
            Some(length) => match mapped {
                Err(code) => Err(AllocError::MappingFailed { code }),
                Ok(address) => {
                    let region = Region { base_address: address, size: length };
                    proof {
                        page_aligned_is_least(size as nat);
                    }
                    self.memory_chunks.push(region);
                    Ok(region)
                },
            },
        }
    }

    /// The position of the first region that starts at `handle`, if there is
    /// one.
    pub fn position(&self, handle: usize) -> (found: Option<usize>)
        ensures
            (match found {
                Some(index) => first_at(self@, handle, index as int),
                None => !holds(self@, handle),
            }),
    {
        let mut index: usize = 0;
        while index < self.memory_chunks.len()
            invariant
                index <= self.memory_chunks@.len(),
                forall|j: int| 0 <= j < index ==> (#[trigger] self@[j]).base_address != handle,
            decreases self.memory_chunks@.len() - index,
        {
            if self.memory_chunks[index].base_address == handle {
                return Some(index);
            }
            index += 1;
        }
        None
    }

    /// Forgets the first region that starts at `handle` and returns it, for
    /// the caller to release. The table is one entry shorter before the
    /// operating system is asked, whatever it then answers.
    pub fn deallocate(&mut self, handle: usize) -> (result: Result<Region, AllocError>)
        ensures
            old(self).wf() ==> final(self).wf(),
            result is Ok <==> holds(old(self)@, handle),
            (match result {
                Ok(region) => {
                    let index = first_position(old(self)@, handle);
                    &&& first_at(old(self)@, handle, index)
                    &&& region == old(self)@[index]
                    &&& final(self)@ == old(self)@.remove(index)
                },
                Err(error) => error == AllocError::NotFound && final(self)@ == old(self)@,
            }),
            distinct_bases(old(self)@) ==> distinct_bases(final(self)@) && !holds(
                final(self)@,
                handle,
            ),
    {
        match self.position(handle) {
            None => Err(AllocError::NotFound),
            Some(index) => {
                let region = self.memory_chunks.remove(index);
                proof {
                    first_is_unique(
                        old(self)@,
                        handle,
                        index as int,
                        first_position(old(self)@, handle),
                    );
                }
                Ok(region)
            },
        }
    }

    /// The live regions as a listing shows them: position, base address and
    /// size, in table order.
    pub fn list_allocations(&self) -> (entries: Vec<(usize, usize, usize)>)
        ensures
            entries@ == listing(self@),
    {
        let mut entries: Vec<(usize, usize, usize)> = Vec::new();
        let mut index: usize = 0;
        while index < self.memory_chunks.len()
            invariant
                index <= self.memory_chunks@.len(),
                entries@ == listing(self@.take(index as int)),
            decreases self.memory_chunks@.len() - index,
        {
            let region = self.memory_chunks[index];
            entries.push((index, region.base_address, region.size));
            index += 1;
            assert(entries@ =~= listing(self@.take(index as int)));
        }
        assert(self@.take(index as int) =~= self@);
        entries
    }

    /// Empties the table and returns what it held, in table order, for the
    /// caller to release.
    pub fn teardown(&mut self) -> (regions: Vec<Region>)
        ensures
            final(self).wf(),
            regions@ == old(self)@,
            final(self)@ == Seq::<Region>::empty(),
    {
        let mut regions: Vec<Region> = Vec::new();
        regions.append(&mut self.memory_chunks);
        regions
    }
}

/// What a release amounts to, given the operating system's answer: `status`
/// holds its code where it declined. The table is not consulted: the region
/// left it when it was looked up.
pub fn unmap_outcome(status: Result<(), i32>) -> (result: Result<(), AllocError>)
    ensures
        result == (match status {
            Ok(_) => Ok::<(), AllocError>(()),
            Err(code) => Err::<(), AllocError>(AllocError::UnmapFailed { code }),
        }),
{
    match status {
        Ok(_) => Ok(()),
        Err(code) => Err(AllocError::UnmapFailed { code }),
    }
}

/// The table after the regions were recorded one by one, as `allocate`
/// records each.
pub open spec fn recorded(table: Seq<Region>, regions: Seq<Region>) -> Seq<Region>
    decreases regions.len(),
{
    if regions.len() == 0 {
        table
    } else {
        recorded(table.push(regions[0]), regions.drop_first())
    }
}

/// Recording regions one by one appends them in that order.
pub proof fn recorded_appends(table: Seq<Region>, regions: Seq<Region>)
    ensures
        recorded(table, regions) == table + regions,
    decreases regions.len(),
{
    if regions.len() == 0 {
        assert(table + regions =~= table);
    } else {
        recorded_appends(table.push(regions[0]), regions.drop_first());
        assert(table.push(regions[0]) + regions.drop_first() =~= table + regions);
    }
}

/// The size of a region is the smallest positive multiple of the page size
/// that is at least the size asked for.
pub proof fn page_aligned_is_least(size: nat)
    ensures
        page_aligned(size) > 0,
        page_aligned(size) % 4096 == 0,
        page_aligned(size) >= size,
        forall|other: nat|
            other > 0 && #[trigger] (other % 4096) == 0 && other >= size ==> page_aligned(size)
                <= other,
{
    if size > 0 {
        let pages = (size + 4095) / 4096;
        assert(pages * 4096 >= size && pages * 4096 < size + 4096 && pages >= 1 && (pages
            * 4096) % 4096 == 0) by (nonlinear_arith)
            requires
                pages == (size + 4095) / 4096,
                size > 0,
        ;
        assert forall|other: nat|
            other > 0 && #[trigger] (other % 4096) == 0 && other >= size implies page_aligned(size)
            <= other by {
            assert(pages * 4096 <= other) by (nonlinear_arith)
                requires
                    other % 4096 == 0,
                    other >= size,
                    pages * 4096 < size + 4096,
                    (pages * 4096) % 4096 == 0,
            ;
        }
    }
}

/// After any number of allocations on an empty table, the listing has one
/// entry for each, in the order of the allocations, under its position.
pub proof fn listing_follows_allocations(regions: Seq<Region>)
    ensures
        listing(recorded(Seq::empty(), regions)).len() == regions.len(),
        forall|i: int|
            0 <= i < regions.len() ==> #[trigger] listing(recorded(Seq::empty(), regions))[i] == (
                i as usize,
                regions[i].base_address,
                regions[i].size,
            ),
{
    recorded_appends(Seq::empty(), regions);
    assert(Seq::<Region>::empty() + regions =~= regions);
}

/// Where no two regions share a base address, releasing a live handle takes
/// exactly one entry out of the table and leaves the others in their order,
/// and the handle is then not live: releasing it again finds nothing.
pub proof fn released_handle_is_gone(table: Seq<Region>, handle: usize)
    requires
        distinct_bases(table),
        holds(table, handle),
    ensures
        first_at(table, handle, first_position(table, handle)),
        table.remove(first_position(table, handle)).len() == table.len() - 1,
        forall|i: int|
            0 <= i < first_position(table, handle) ==> table.remove(
                first_position(table, handle),
            )[i] == table[i],
        forall|i: int|
            first_position(table, handle) <= i < table.len() - 1 ==> table.remove(
                first_position(table, handle),
            )[i] == table[i + 1],
        distinct_bases(table.remove(first_position(table, handle))),
        !holds(table.remove(first_position(table, handle)), handle),
{
    let at = choose|i: int| 0 <= i < table.len() && (#[trigger] table[i]).base_address == handle;
    assert(first_at(table, handle, at)) by {
        assert forall|j: int| 0 <= j < at implies (#[trigger] table[j]).base_address
            != handle by {
            assert(table[j].base_address != table[at].base_address);
        }
    }
    let index = first_position(table, handle);
    let rest = table.remove(index);
    assert forall|i: int, j: int| 0 <= i < j < rest.len() implies (#[trigger] rest[i]).base_address
        != (#[trigger] rest[j]).base_address by {
        let from_i = if i < index {
            i
        } else {
            i + 1
        };
        let from_j = if j < index {
            j
        } else {
            j + 1
        };
        assert(rest[i] == table[from_i] && rest[j] == table[from_j]);
    }
    assert forall|i: int| 0 <= i < rest.len() implies (#[trigger] rest[i]).base_address
        != handle by {
        let from = if i < index {
            i
        } else {
            i + 1
        };
        assert(rest[i] == table[from]);
        if from < index {
            assert(table[from].base_address != table[index].base_address);
        } else {
            assert(table[index].base_address != table[from].base_address);
        }
    }
}

/// Where no two regions share a base address, the first region at the base
/// address of a position is the region at that position.
pub proof fn position_of_own_base(table: Seq<Region>, index: int)
    requires
        distinct_bases(table),
        0 <= index < table.len(),
    ensures
        first_position(table, table[index].base_address) == index,
{
    let handle = table[index].base_address;
    assert(first_at(table, handle, index)) by {
        assert forall|j: int| 0 <= j < index implies (#[trigger] table[j]).base_address
            != handle by {
            assert(table[j].base_address != table[index].base_address);
        }
    }
    first_is_unique(table, handle, index, first_position(table, handle));
}

} // verus!
