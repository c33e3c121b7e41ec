//! The memory-region model: page arithmetic, ownership transfer between
//! split regions, and protection-state transitions.
//!
//! A [`Region`] is the verified bookkeeping for one anonymous mapping: its
//! base address, its extent and its protection state. The system calls that
//! realize a region live outside the library; the callers keep a `Region`
//! in step with each mapping and rely on its contracts for the split
//! arithmetic (no overlap, no loss) and the protection discipline.

use vstd::prelude::*;
use vstd::arithmetic::div_mod::lemma_fundamental_div_mod;
use vstd::arithmetic::div_mod::lemma_mod_multiples_basic;

verus! {

/// A memory-management failure.
#[derive(Debug)]
pub enum MmapError {
    MmapFailed,
    MprotectFailed,
    SplitFailedNotEnoughSpace,
}

/// The protection state of a region.
#[derive(Debug, Clone, Copy, PartialEq, Eq, Structural)]
pub enum Prot {
    NoAccess,
    ReadWrite,
    ReadExec,
    ReadWriteExec,
}

/// `size` rounded up to the next multiple of `page`.
pub open spec fn align_up(size: int, page: int) -> int {
    ((size + page - 1) / page) * page
}

/// Rounding up to a page multiple lands on a multiple no further than a page
/// away.
pub proof fn lemma_align_up(size: int, page: int)
    requires
        page >= 1,
        size >= 0,
    ensures
        align_up(size, page) % page == 0,
        size <= align_up(size, page) < size + page,
    decreases 0int,
{
    let q = (size + page - 1) / page;
    lemma_fundamental_div_mod(size + page - 1, page);
    lemma_mod_multiples_basic(q, page);
}

/// Rounding a page multiple up changes nothing.
pub proof fn lemma_align_up_exact(n: int, page: int)
    requires
        page >= 1,
        n >= 0,
        n % page == 0,
    ensures
        align_up(n, page) == n,
{
    let k = n / page;
    lemma_fundamental_div_mod(n, page);
    assert(n == page * k);
    assert(n + page - 1 == k * page + (page - 1)) by (nonlinear_arith)
        requires
            n == page * k,
    ;
    vstd::arithmetic::div_mod::lemma_fundamental_div_mod_converse(
        n + page - 1,
        page,
        k,
        page - 1,
    );
    assert(align_up(n, page) == k * page);
    assert(k * page == n) by (nonlinear_arith)
        requires
            n == page * k,
    ;
}

/// Taking one page off a page multiple leaves a page multiple.
pub proof fn lemma_mod_minus_page(size: int, page: int)
    requires
        page >= 1,
        size % page == 0,
    ensures
        (size - page) % page == 0,
{
    vstd::arithmetic::div_mod::lemma_mod_sub_multiples_vanish(size, page);
}

/// One page-aligned anonymous mapping: base address, extent and protection.
///
/// The model does not perform the mapping; it is the verified record of one.
#[derive(Debug)]
pub struct Region {
    addr: usize,
    size: usize,
    prot: Prot,
}

impl Region {
    /// The base address.
    pub closed spec fn spec_addr(&self) -> int {
        self.addr as int
    }

    /// The extent in bytes.
    pub closed spec fn spec_size(&self) -> int {
        self.size as int
    }

    /// The protection state.
    pub closed spec fn spec_prot(&self) -> Prot {
        self.prot
    }

    /// The region's span stays within the address space.
    pub open spec fn wf(&self) -> bool {
        self.spec_addr() + self.spec_size() <= usize::MAX
    }

    /// Two regions do not share a byte.
    pub open spec fn disjoint(&self, other: &Region) -> bool {
        self.spec_addr() + self.spec_size() <= other.spec_addr() || other.spec_addr()
            + other.spec_size() <= self.spec_addr()
    }

    /// Record a fresh read-write mapping at `addr` of `size` bytes.
    pub fn new(addr: usize, size: usize) -> (r: Region)
        requires
            addr + size <= usize::MAX,
        ensures
            r.spec_addr() == addr,
            r.spec_size() == size,
            r.spec_prot() == Prot::ReadWrite,
            r.wf(),
    {
        Region { addr, size, prot: Prot::ReadWrite }
    }

    /// `size` rounded up to the next multiple of the page size.
    pub fn page_aligned_size(size: usize, page: usize) -> (r: usize)
        requires
            page >= 1,
            size + page <= usize::MAX,
        ensures
            r == align_up(size as int, page as int),
            size <= r < size + page,
            r % page == 0,
    {
        proof {
            lemma_align_up(size as int, page as int);
        }
        ((size + (page - 1)) / page) * page
    }

    /// The base address of the region.
    pub fn addr(&self) -> (r: usize)
        ensures
            r == self.spec_addr(),
    {
        self.addr
    }

    /// The extent of the region in bytes.
    pub fn size(&self) -> (r: usize)
        ensures
            r == self.spec_size(),
    {
        self.size
    }

    /// Carve the first page off into a new owning region; this region keeps
    /// the rest. Fails when fewer than two pages are present.
    pub fn split_page_start(&mut self, page: usize) -> (r: Result<Region, MmapError>)
        requires
            page >= 1,
            old(self).wf(),
            old(self).spec_size() % (page as int) == 0,
        ensures
            old(self).spec_size() < 2 * page ==> r == Err::<Region, MmapError>(
                MmapError::SplitFailedNotEnoughSpace,
            ) && *final(self) == *old(self),
            old(self).spec_size() >= 2 * page ==> ({
                &&& r matches Ok(head)
                &&& head.spec_addr() == old(self).spec_addr()
                &&& head.spec_size() == page
                &&& head.spec_prot() == old(self).spec_prot()
                &&& final(self).spec_addr() == old(self).spec_addr() + page
                &&& final(self).spec_size() == old(self).spec_size() - page
                &&& final(self).spec_prot() == old(self).spec_prot()
                &&& head.disjoint(final(self))
                &&& final(self).wf()
                &&& head.wf()
                &&& final(self).spec_size() % (page as int) == 0
            }),
    {
        if page > self.size || self.size - page < page {
            return Err(MmapError::SplitFailedNotEnoughSpace);
        }
        let head_addr = self.addr;
        self.addr = self.addr + page;
        let rest = self.size - page;
        proof {
            lemma_mod_minus_page(old(self).spec_size(), page as int);
            lemma_align_up_exact(rest as int, page as int);
        }
        self.size = Region::page_aligned_size(rest, page);
        Ok(Region { addr: head_addr, size: page, prot: self.prot })
    }

    /// Carve the last page off into a new owning region; this region keeps
    /// the rest. Fails when fewer than two pages are present.
    pub fn split_page_end(&mut self, page: usize) -> (r: Result<Region, MmapError>)
        requires
            page >= 1,
            old(self).wf(),
            old(self).spec_size() % (page as int) == 0,
        ensures
            old(self).spec_size() < 2 * page ==> r == Err::<Region, MmapError>(
                MmapError::SplitFailedNotEnoughSpace,
            ) && *final(self) == *old(self),
            old(self).spec_size() >= 2 * page ==> ({
                &&& r matches Ok(tail)
                &&& tail.spec_addr() == old(self).spec_addr() + final(self).spec_size()
                &&& tail.spec_size() == page
                &&& tail.spec_prot() == old(self).spec_prot()
                &&& final(self).spec_addr() == old(self).spec_addr()
                &&& final(self).spec_size() == old(self).spec_size() - page
                &&& final(self).spec_prot() == old(self).spec_prot()
                &&& tail.disjoint(final(self))
                &&& final(self).wf()
                &&& tail.wf()
                &&& final(self).spec_size() % (page as int) == 0
            }),
    {
        if page > self.size || self.size - page < page {
            return Err(MmapError::SplitFailedNotEnoughSpace);
        }
        let rest = self.size - page;
        proof {
            lemma_mod_minus_page(old(self).spec_size(), page as int);
            lemma_align_up_exact(rest as int, page as int);
        }
        self.size = Region::page_aligned_size(rest, page);
        let tail_addr = self.addr + self.size;
        Ok(Region { addr: tail_addr, size: page, prot: self.prot })
    }

    /// Carve `size` bytes off the end into a new owning region; this region
    /// keeps the prefix. Fails when the region is smaller than `size`.
    pub fn split_end(&mut self, size: usize) -> (r: Result<Region, MmapError>)
        requires
            old(self).wf(),
        ensures
            old(self).spec_size() < size ==> r == Err::<Region, MmapError>(
                MmapError::SplitFailedNotEnoughSpace,
            ) && *final(self) == *old(self),
            old(self).spec_size() >= size ==> ({
                &&& r matches Ok(tail)
                &&& tail.spec_addr() == old(self).spec_addr() + final(self).spec_size()
                &&& tail.spec_size() == size
                &&& tail.spec_prot() == old(self).spec_prot()
                &&& final(self).spec_addr() == old(self).spec_addr()
                &&& final(self).spec_size() == old(self).spec_size() - size
                &&& final(self).spec_prot() == old(self).spec_prot()
                &&& tail.disjoint(final(self))
                &&& final(self).wf()
                &&& tail.wf()
            }),
    {
        if self.size < size {
            return Err(MmapError::SplitFailedNotEnoughSpace);
        }
        let tail_addr = self.addr + (self.size - size);
        self.size = self.size - size;
        Ok(Region { addr: tail_addr, size, prot: self.prot })
    }

    /// Record the transition to no access.
    pub fn protect_no_access(&mut self) -> (r: Result<(), MmapError>)
        ensures
            r is Ok,
            final(self).spec_prot() == Prot::NoAccess,
            final(self).spec_addr() == old(self).spec_addr(),
            final(self).spec_size() == old(self).spec_size(),
    {
        self.prot = Prot::NoAccess;
        Ok(())
    }

    /// Record the transition to read and execute.
    pub fn protect_rx(&mut self) -> (r: Result<(), MmapError>)
        ensures
            r is Ok,
            final(self).spec_prot() == Prot::ReadExec,
            final(self).spec_addr() == old(self).spec_addr(),
            final(self).spec_size() == old(self).spec_size(),
    {
        self.prot = Prot::ReadExec;
        Ok(())
    }

    /// Record the transition to read, write and execute.
    pub fn protect_rwx(&mut self) -> (r: Result<(), MmapError>)
        ensures
            r is Ok,
            final(self).spec_prot() == Prot::ReadWriteExec,
            final(self).spec_addr() == old(self).spec_addr(),
            final(self).spec_size() == old(self).spec_size(),
    {
        self.prot = Prot::ReadWriteExec;
        Ok(())
    }

    /// Record the transition to read and write.
    pub fn protect_rw(&mut self) -> (r: Result<(), MmapError>)
        ensures
            r is Ok,
            final(self).spec_prot() == Prot::ReadWrite,
            final(self).spec_addr() == old(self).spec_addr(),
            final(self).spec_size() == old(self).spec_size(),
    {
        self.prot = Prot::ReadWrite;
        Ok(())
    }

    /// Whether the region's protection admits execution.
    pub fn is_executable(&self) -> (r: bool)
        ensures
            r == (self.spec_prot() == Prot::ReadExec || self.spec_prot() == Prot::ReadWriteExec),
    {
        self.prot == Prot::ReadExec || self.prot == Prot::ReadWriteExec
    }
}

/// A usable region fenced by two no-access guard pages, so that an overrun
/// on either side traps instead of corrupting a neighbour.
pub struct GuardedMmap {
    guard_before: Region,
    mmap: Region,
    guard_after: Region,
    map_name: String,
}

impl GuardedMmap {
    /// The usable inner region.
    pub closed spec fn spec_inner(&self) -> Region {
        self.mmap
    }

    /// The leading guard page.
    pub closed spec fn spec_guard_before(&self) -> Region {
        self.guard_before
    }

    /// The trailing guard page.
    pub closed spec fn spec_guard_after(&self) -> Region {
        self.guard_after
    }

    /// The label the mapping was created under.
    pub closed spec fn spec_name(&self) -> Seq<char> {
        self.map_name@
    }

    /// The guard discipline: both guards refuse all access, sit flush
    /// against the usable region, and overlap neither it nor each other.
    pub open spec fn guards_ok(&self) -> bool {
        &&& self.spec_guard_before().spec_prot() == Prot::NoAccess
        &&& self.spec_guard_after().spec_prot() == Prot::NoAccess
        &&& self.spec_guard_before().spec_addr() + self.spec_guard_before().spec_size()
            == self.spec_inner().spec_addr()
        &&& self.spec_inner().spec_addr() + self.spec_inner().spec_size()
            == self.spec_guard_after().spec_addr()
        &&& self.spec_guard_before().disjoint(&self.spec_inner())
        &&& self.spec_guard_after().disjoint(&self.spec_inner())
        &&& self.spec_guard_before().disjoint(&self.spec_guard_after())
    }

    /// Fence a fresh mapping: carve a guard page off each end and make both
    /// inaccessible. `mapping` must be the record of a read-write mapping of
    /// `align_up(size, page) + 2 * page` bytes. Succeeds for every positive
    /// `size`: the usable middle then spans exactly `align_up(size, page)`
    /// bytes between the two no-access guards. A zero `size` leaves no
    /// middle page to fence and is refused.
    pub fn new(size: usize, map_name: String, mapping: Region, page: usize) -> (r: Result<
        GuardedMmap,
        MmapError,
    >)
        requires
            page >= 1,
            size + page <= usize::MAX,
            mapping.wf(),
            mapping.spec_prot() == Prot::ReadWrite,
            mapping.spec_size() == align_up(size as int, page as int) + 2 * page,
        ensures
            size >= 1 <==> r is Ok,
            size == 0 ==> r == Err::<GuardedMmap, MmapError>(
                MmapError::SplitFailedNotEnoughSpace,
            ),
            r matches Ok(g) ==> ({
                &&& g.guards_ok()
                &&& g.spec_inner().spec_size() == align_up(size as int, page as int)
                &&& g.spec_inner().spec_size() >= size
                &&& g.spec_inner().spec_addr() == mapping.spec_addr() + page
                &&& g.spec_inner().spec_prot() == Prot::ReadWrite
                &&& g.spec_inner().wf()
                &&& g.spec_guard_before().spec_size() == page
                &&& g.spec_guard_after().spec_size() == page
                &&& g.spec_name() == map_name@
            }),
    {
        let ghost aligned = align_up(size as int, page as int);
        proof {
            lemma_align_up(size as int, page as int);
            assert((2 * (page as int)) % (page as int) == 0) by {
                lemma_mod_multiples_basic(2, page as int);
            }
            assert((aligned + 2 * (page as int)) % (page as int) == 0) by {
                vstd::arithmetic::div_mod::lemma_mod_adds(
                    aligned,
                    2 * (page as int),
                    page as int,
                );
            }
            if size >= 1 {
                // A positive size rounds up to at least one whole page.
                let q = aligned / (page as int);
                lemma_fundamental_div_mod(aligned, page as int);
                assert(aligned == (page as int) * q + aligned % (page as int));
                assert(aligned >= page) by (nonlinear_arith)
                    requires
                        aligned == (page as int) * q,
                        aligned >= 1,
                        page >= 1,
                ;
            }
        }
        let mut mmap_buf = mapping;
        let mut guard_before = match mmap_buf.split_page_start(page) {
            Ok(g) => g,
            Err(e) => {
                proof {
                    assert(false);
                }
                return Err(e);
            },
        };
        let mut guard_after = match mmap_buf.split_page_end(page) {
            Ok(g) => g,
            Err(e) => {
                // Only a zero size leaves fewer than two pages here.
                return Err(e);
            },
        };
        // The model's protection transitions cannot fail.
        let _ = guard_before.protect_no_access();
        let _ = guard_after.protect_no_access();
        Ok(GuardedMmap { guard_before, mmap: mmap_buf, guard_after, map_name })
    }

    /// The label this mapping was created under.
    pub fn name(&self) -> (r: &String)
        ensures
            r@ == self.spec_name(),
    {
        &self.map_name
    }

    /// The base address of the usable region.
    pub fn addr(&self) -> (r: usize)
        ensures
            r == self.spec_inner().spec_addr(),
    {
        self.mmap.addr()
    }

    /// Record the usable region's transition to read and execute.
    pub fn protect_rx(&mut self) -> (r: Result<(), MmapError>)
        ensures
            r is Ok,
            final(self).spec_inner().spec_prot() == Prot::ReadExec,
            final(self).spec_guard_before() == old(self).spec_guard_before(),
            final(self).spec_guard_after() == old(self).spec_guard_after(),
            final(self).spec_inner().spec_addr() == old(self).spec_inner().spec_addr(),
            final(self).spec_inner().spec_size() == old(self).spec_inner().spec_size(),
            old(self).guards_ok() ==> final(self).guards_ok(),
    {
        self.mmap.protect_rx()
    }

    /// Record the usable region's transition to read and write.
    pub fn protect_rw(&mut self) -> (r: Result<(), MmapError>)
        ensures
            r is Ok,
            final(self).spec_inner().spec_prot() == Prot::ReadWrite,
            final(self).spec_guard_before() == old(self).spec_guard_before(),
            final(self).spec_guard_after() == old(self).spec_guard_after(),
            final(self).spec_inner().spec_addr() == old(self).spec_inner().spec_addr(),
            final(self).spec_inner().spec_size() == old(self).spec_inner().spec_size(),
            old(self).guards_ok() ==> final(self).guards_ok(),
    {
        self.mmap.protect_rw()
    }

    /// Whether the usable region admits execution.
    pub fn is_executable(&self) -> (r: bool)
        ensures
            r == (self.spec_inner().spec_prot() == Prot::ReadExec || self.spec_inner().spec_prot()
                == Prot::ReadWriteExec),
    {
        self.mmap.is_executable()
    }
}

} // verus!
