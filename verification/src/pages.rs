use crate::error::LoadError;
use vstd::prelude::*;

verus! {

/// Size in bytes of one firmware-granted page.
pub const PAGE_SIZE: usize = 4096;

/// A call counter one step later: counters saturate instead of wrapping.
pub open spec fn bump(c: u64) -> u64 {
    if c == u64::MAX {
        c
    } else {
        (c + 1) as u64
    }
}

/// The number of whole pages that cover `size` bytes.
pub open spec fn spec_pages_for(size: nat) -> int {
    (size + PAGE_SIZE - 1) / (PAGE_SIZE as int)
}

/// The firmware's page-granularity memory service, modelled as an explicit
/// value threaded through the call chain. It simulates the boot-time
/// service on the host heap: it grants page-backed buffers, counts the
/// allocate and release calls that reach it, tracks how many pages are
/// outstanding, and can carry a page budget so that callers' failure paths
/// can be exercised without real firmware.
pub struct PageAllocator {
    services_available: bool,
    alloc_calls: u64,
    free_calls: u64,
    live_pages: u64,
    budget: Option<u64>,
}

impl PageAllocator {
    /// Whether the boot-time services are still available. Every operation
    /// that reaches the firmware must hold this; it is false after the
    /// services have been torn down.
    pub closed spec fn available(&self) -> bool {
        self.services_available
    }

    /// How many allocate calls have reached the firmware.
    pub closed spec fn allocs(&self) -> u64 {
        self.alloc_calls
    }

    /// How many release calls have reached the firmware.
    pub closed spec fn frees(&self) -> u64 {
        self.free_calls
    }

    /// How many granted pages have not been released.
    pub closed spec fn live(&self) -> u64 {
        self.live_pages
    }

    /// The pages the firmware is still willing to grant, if bounded.
    pub closed spec fn spec_budget(&self) -> Option<u64> {
        self.budget
    }

    /// Whether the firmware grants a request of `pages` pages.
    pub open spec fn grants(&self, pages: nat) -> bool {
        &&& pages * PAGE_SIZE <= usize::MAX
        &&& self.live() + pages <= u64::MAX
        &&& match self.spec_budget() {
            None => true,
            Some(b) => pages <= b,
        }
    }

    /// A fresh service with no bound on what it grants.
    pub fn new() -> (r: Self)
        ensures
            r.available(),
            r.allocs() == 0,
            r.frees() == 0,
            r.live() == 0,
            r.spec_budget() is None,
    {
        Self {
            services_available: true,
            alloc_calls: 0,
            free_calls: 0,
            live_pages: 0,
            budget: None,
        }
    }

    /// A fresh service that will grant at most `pages` pages in total, so
    /// that out-of-memory paths can be exercised.
    pub fn with_budget(pages: u64) -> (r: Self)
        ensures
            r.available(),
            r.allocs() == 0,
            r.frees() == 0,
            r.live() == 0,
            r.spec_budget() == Some(pages),
    {
        Self {
            services_available: true,
            alloc_calls: 0,
            free_calls: 0,
            live_pages: 0,
            budget: Some(pages),
        }
    }

    /// Tears the boot-time services down: after this, no operation may
    /// reach the firmware any more.
    pub fn exit_boot_services(&mut self)
        ensures
            !final(self).available(),
            final(self).allocs() == old(self).allocs(),
            final(self).frees() == old(self).frees(),
            final(self).live() == old(self).live(),
            final(self).spec_budget() == old(self).spec_budget(),
    {
        self.services_available = false;
    }

    /// Whether the boot-time services are still available.
    pub fn is_available(&self) -> (r: bool)
        ensures
            r == self.available(),
    {
        self.services_available
    }

    /// How many allocate calls have reached the firmware.
    pub fn alloc_calls(&self) -> (r: u64)
        ensures
            r == self.allocs(),
    {
        self.alloc_calls
    }

    /// How many release calls have reached the firmware.
    pub fn free_calls(&self) -> (r: u64)
        ensures
            r == self.frees(),
    {
        self.free_calls
    }

    /// How many granted pages are outstanding.
    pub fn live_pages(&self) -> (r: u64)
        ensures
            r == self.live(),
    {
        self.live_pages
    }

    /// Requests `pages` whole pages. A request for zero pages short-circuits
    /// to an empty buffer without reaching the firmware. Calling after the
    /// services are gone is a programming error, excluded here rather than
    /// silently attempted.
    pub fn allocate_pages(&mut self, pages: usize) -> (r: Result<Vec<u8>, LoadError>)
        requires
            old(self).available(),
        ensures
            final(self).available(),
            final(self).frees() == old(self).frees(),
            pages == 0 ==> {
                &&& r matches Ok(v) && v@.len() == 0
                &&& *final(self) == *old(self)
            },
            pages > 0 && old(self).grants(pages as nat) ==> {
                &&& r matches Ok(v) && v@ == Seq::new((pages * PAGE_SIZE) as nat, |i: int| 0u8)
                &&& final(self).allocs() == bump(old(self).allocs())
                &&& final(self).live() == old(self).live() + pages
                &&& final(self).spec_budget() == match old(self).spec_budget() {
                    None => None::<u64>,
                    Some(b) => Some((b - pages) as u64),
                }
            },
            pages > 0 && !old(self).grants(pages as nat) ==> {
                &&& r == Err::<Vec<u8>, LoadError>(LoadError::AllocationFailure)
                &&& final(self).allocs() == bump(old(self).allocs())
                &&& final(self).live() == old(self).live()
                &&& final(self).spec_budget() == old(self).spec_budget()
            },
    {
        if pages == 0 {
            return Ok(Vec::new());
        }
        if self.alloc_calls < u64::MAX {
            self.alloc_calls = self.alloc_calls + 1;
        }
        let fits = pages <= usize::MAX / PAGE_SIZE;
        proof {
            vstd::arithmetic::div_mod::lemma_fundamental_div_mod(usize::MAX as int, PAGE_SIZE as int);
            assert(fits == (pages * PAGE_SIZE <= usize::MAX)) by (nonlinear_arith)
                requires
                    fits == (pages <= usize::MAX / PAGE_SIZE),
                    usize::MAX == (usize::MAX / PAGE_SIZE) * PAGE_SIZE + (usize::MAX as int % (
                    PAGE_SIZE as int)),
                    0 <= usize::MAX as int % (PAGE_SIZE as int) < PAGE_SIZE,
                    pages >= 0;
        }
        let room = pages as u64 <= u64::MAX - self.live_pages;
        let within_budget = match self.budget {
            None => true,
            Some(b) => pages as u64 <= b,
        };
        if !(fits && room && within_budget) {
            return Err(LoadError::AllocationFailure);
        }
        self.live_pages = self.live_pages + pages as u64;
        self.budget = match self.budget {
            None => None,
            Some(b) => Some(b - pages as u64),
        };
        let total = pages * PAGE_SIZE;
        let mut v: Vec<u8> = Vec::new();
        while v.len() < total
            invariant
                v@.len() <= total,
                forall|i: int| 0 <= i < v@.len() ==> v@[i] == 0u8,
            decreases total - v@.len(),
        {
            v.push(0u8);
        }
        proof {
            assert(v@ =~= Seq::new(total as nat, |i: int| 0u8));
        }
        Ok(v)
    }

    /// Releases `pages` pages previously granted by this service. Releasing
    /// pages that are not outstanding is undefined and excluded: callers
    /// guarantee single ownership. Zero pages short-circuit without
    /// reaching the firmware.
    pub fn release_pages(&mut self, pages: usize)
        requires
            old(self).available(),
            pages <= old(self).live(),
        ensures
            final(self).available(),
            final(self).allocs() == old(self).allocs(),
            final(self).spec_budget() == old(self).spec_budget(),
            pages == 0 ==> *final(self) == *old(self),
            pages > 0 ==> {
                &&& final(self).frees() == bump(old(self).frees())
                &&& final(self).live() == old(self).live() - pages
            },
    {
        if pages == 0 {
            return ;
        }
        if self.free_calls < u64::MAX {
            self.free_calls = self.free_calls + 1;
        }
        self.live_pages = self.live_pages - pages as u64;
    }
}

/// An owned, page-backed byte buffer: it exclusively owns one page grant
/// and exposes it as a flat byte view sized to the full page-rounded
/// capacity. Callers that need an exact logical length track it alongside.
#[derive(Debug)]
pub struct PageBox {
    data: Vec<u8>,
    pages: usize,
}

impl View for PageBox {
    type V = Seq<u8>;

    closed spec fn view(&self) -> Seq<u8> {
        self.data@
    }
}

impl PageBox {
    pub const PAGE_SIZE: usize = crate::pages::PAGE_SIZE;

    /// How many whole pages back this buffer.
    pub closed spec fn spec_pages(&self) -> nat {
        self.pages as nat
    }

    /// The byte view is exactly the page-rounded backing size.
    pub open spec fn wf(&self) -> bool {
        self@.len() == self.spec_pages() * PAGE_SIZE
    }

    /// Requests a buffer of `pages` whole pages from the firmware service.
    pub fn new(alloc: &mut PageAllocator, pages: usize) -> (r: Result<Self, LoadError>)
        requires
            old(alloc).available(),
        ensures
            final(alloc).available(),
            final(alloc).frees() == old(alloc).frees(),
            pages == 0 ==> {
                &&& r matches Ok(b) && b.wf() && b.spec_pages() == 0 && b@.len() == 0
                &&& *final(alloc) == *old(alloc)
            },
            pages > 0 && old(alloc).grants(pages as nat) ==> {
                &&& r matches Ok(b) && b.wf() && b.spec_pages() == pages
                &&& (r matches Ok(b) ==> b@ == Seq::new((pages * PAGE_SIZE) as nat, |i: int| 0u8))
                &&& final(alloc).allocs() == bump(old(alloc).allocs())
                &&& final(alloc).live() == old(alloc).live() + pages
                &&& final(alloc).spec_budget() == match old(alloc).spec_budget() {
                    None => None::<u64>,
                    Some(b) => Some((b - pages) as u64),
                }
            },
            pages > 0 && !old(alloc).grants(pages as nat) ==> {
                &&& r == Err::<Self, LoadError>(LoadError::AllocationFailure)
                &&& final(alloc).allocs() == bump(old(alloc).allocs())
                &&& final(alloc).live() == old(alloc).live()
                &&& final(alloc).spec_budget() == old(alloc).spec_budget()
            },
    {
        let data = alloc.allocate_pages(pages)?;
        Ok(Self { data, pages })
    }

    /// Requests a buffer of `size` bytes, rounded up to whole pages.
    pub fn new_from_bytes(alloc: &mut PageAllocator, size: usize) -> (r: Result<Self, LoadError>)
        requires
            old(alloc).available(),
        ensures
            final(alloc).available(),
            final(alloc).frees() == old(alloc).frees(),
            ({
                let pages = spec_pages_for(size as nat);
                &&& (pages == 0 ==> (r matches Ok(b) && b.wf() && b.spec_pages() == 0 && b@.len()
                    == 0) && *final(alloc) == *old(alloc))
                &&& (pages > 0 && old(alloc).grants(pages as nat) ==> (r matches Ok(b) && {
                    &&& b.wf()
                    &&& b.spec_pages() == pages
                    &&& b@ == Seq::new((pages * PAGE_SIZE) as nat, |i: int| 0u8)
                    &&& b@.len() >= size
                }) && {
                    &&& final(alloc).allocs() == bump(old(alloc).allocs())
                    &&& final(alloc).live() == old(alloc).live() + pages
                    &&& final(alloc).spec_budget() == match old(alloc).spec_budget() {
                        None => None::<u64>,
                        Some(b) => Some((b - pages) as u64),
                    }
                })
                &&& (pages > 0 && !old(alloc).grants(pages as nat) ==> {
                    &&& r == Err::<Self, LoadError>(LoadError::AllocationFailure)
                    &&& final(alloc).allocs() == bump(old(alloc).allocs())
                    &&& final(alloc).live() == old(alloc).live()
                    &&& final(alloc).spec_budget() == old(alloc).spec_budget()
                })
            }),
    {
        let pages = size / Self::PAGE_SIZE + if size % Self::PAGE_SIZE != 0 {
            1
        } else {
            0
        };
        proof {
            vstd::arithmetic::div_mod::lemma_fundamental_div_mod(size as int, PAGE_SIZE as int);
            assert(pages == spec_pages_for(size as nat)) by (nonlinear_arith)
                requires
                    pages == size / PAGE_SIZE + if size % PAGE_SIZE != 0 { 1int } else { 0int },
                    spec_pages_for(size as nat) == ((size + PAGE_SIZE - 1) as int) / (
                    PAGE_SIZE as int),
                    size == (size / PAGE_SIZE) * PAGE_SIZE + size % PAGE_SIZE,
                    0 <= size % PAGE_SIZE < PAGE_SIZE,
                    size >= 0;
        }
        let b = Self::new(alloc, pages)?;
        proof {
            vstd::arithmetic::div_mod::lemma_fundamental_div_mod(size as int, PAGE_SIZE as int);
            assert(pages * PAGE_SIZE >= size) by (nonlinear_arith)
                requires
                    pages == size / PAGE_SIZE + if size % PAGE_SIZE != 0 { 1int } else { 0int },
                    size == (size / PAGE_SIZE) * PAGE_SIZE + size % PAGE_SIZE,
                    0 <= size % PAGE_SIZE < PAGE_SIZE;
        }
        Ok(b)
    }

    /// The buffer's full page-rounded byte length.
    pub fn len(&self) -> (r: usize)
        ensures
            r == self@.len(),
    {
        self.data.len()
    }

    /// Read access to the backing bytes.
    pub fn bytes(&self) -> (r: &Vec<u8>)
        ensures
            r@ == self@,
    {
        &self.data
    }

    /// Write access to the backing bytes, for the embedder to fill.
    pub fn bytes_mut(&mut self) -> (r: &mut Vec<u8>)
        ensures
            (*r)@ == old(self)@,
            final(self)@ == (*final(r))@,
            final(self).spec_pages() == old(self).spec_pages(),
    {
        &mut self.data
    }

    /// Forfeits the automatic release: ownership of the bytes passes to the
    /// caller with an unbounded lifetime, and the backing pages stay
    /// outstanding forever.
    pub fn leak(self) -> (r: Vec<u8>)
        ensures
            r@ == self@,
    {
        self.data
    }

    /// Returns the backing pages to the firmware service that granted them.
    /// Callers guarantee single ownership: the buffer's pages are part of
    /// the service's outstanding count.
    pub fn release(self, alloc: &mut PageAllocator)
        requires
            old(alloc).available(),
            self.spec_pages() <= old(alloc).live(),
        ensures
            final(alloc).available(),
            final(alloc).allocs() == old(alloc).allocs(),
            final(alloc).spec_budget() == old(alloc).spec_budget(),
            self.spec_pages() == 0 ==> *final(alloc) == *old(alloc),
            self.spec_pages() > 0 ==> {
                &&& final(alloc).frees() == bump(old(alloc).frees())
                &&& final(alloc).live() == old(alloc).live() - self.spec_pages()
            },
    {
        alloc.release_pages(self.pages);
    }
}

} // verus!
