//! The bump allocator of the loader: pages are handed out from the bottom
//! of a pool upwards and never taken back.

use vstd::prelude::*;
use crate::config::GRANULE_SIZE;
use crate::memory::{Address, AddressRange, Page, PageAllocator, Physical};

verus! {

/// The state of the bump allocator: the pool from `start` to `end`, and
/// `top`, the first address that has not been handed out.
pub struct StackPageAllocatorMetadata {
    start: Address<Physical>,
    end: Address<Physical>,
    top: Address<Physical>,
}

impl StackPageAllocatorMetadata {
    /// Where the pool starts.
    pub closed spec fn start_spec(&self) -> int {
        self.start@
    }

    /// The first address above the pool.
    pub closed spec fn end_spec(&self) -> int {
        self.end@
    }

    /// The first address that has not been handed out.
    pub closed spec fn top_spec(&self) -> int {
        self.top@
    }

    /// The invariant of an initialized pool: it starts above address 0 on
    /// a granule boundary, and `top` lies in it, a whole number of
    /// granules above the start.
    pub open spec fn wf(&self) -> bool {
        &&& self.start_spec() != 0
        &&& self.start_spec() % (GRANULE_SIZE as int) == 0
        &&& self.start_spec() <= self.top_spec() <= self.end_spec()
        &&& self.top_spec() % (GRANULE_SIZE as int) == 0
    }

    /// Pages handed out so far.
    pub open spec fn used_pages(&self) -> int {
        (self.top_spec() - self.start_spec()) / (GRANULE_SIZE as int)
    }

    /// Pages that the pool has not handed out yet. A pool may end with a
    /// part of a granule, which is never handed out.
    pub open spec fn free_pages(&self) -> int {
        (self.end_spec() - self.top_spec()) / (GRANULE_SIZE as int)
    }

    /// The three addresses are machine words.
    pub proof fn lemma_bounds(&self)
        ensures
            0 <= self.start_spec() <= usize::MAX,
            0 <= self.top_spec() <= usize::MAX,
            0 <= self.end_spec() <= usize::MAX,
    {
        self.start.lemma_bounds();
        self.top.lemma_bounds();
        self.end.lemma_bounds();
    }

    /// The state before initialization: everything at address 0.
    pub fn new() -> (r: Self)
        ensures
            r.start_spec() == 0,
            r.end_spec() == 0,
            r.top_spec() == 0,
    {
        Self { start: Address::new(0), end: Address::new(0), top: Address::new(0) }
    }

    /// Makes the `num` pages from `start` the pool, with nothing handed
    /// out. The pool has to end within the machine word.
    pub fn init(&mut self, start: Address<Physical>, num: usize)
        requires
            start@ + num * GRANULE_SIZE <= usize::MAX,
        ensures
            final(self).start_spec() == start@,
            final(self).top_spec() == start@,
            final(self).end_spec() == start@ + num * GRANULE_SIZE,
            start@ != 0 && start@ % (GRANULE_SIZE as int) == 0 ==> final(self).wf(),
            final(self).free_pages() == num,
    {
        proof {
            start.lemma_bounds();
        }
        self.start = start;
        self.top = start;
        self.end = start.add(num * GRANULE_SIZE);
    }

    /// The pool.
    pub fn range(&self) -> (r: AddressRange<Physical>)
        requires
            self.start_spec() <= self.end_spec(),
        ensures
            r.wf(),
            r.base() == self.start_spec(),
            r.len() == self.end_spec() - self.start_spec(),
    {
        AddressRange::new_range(self.start, self.end)
    }

    /// The part of the pool that has been handed out.
    pub fn used(&self) -> (r: AddressRange<Physical>)
        requires
            self.start_spec() <= self.top_spec(),
        ensures
            r.wf(),
            r.base() == self.start_spec(),
            r.len() == self.top_spec() - self.start_spec(),
    {
        AddressRange::new_range(self.start, self.top)
    }
}

/// The bump allocator.
pub struct StackPageAllocator {
    metadata: StackPageAllocatorMetadata,
}

/// Whether `num` pages fit between `top` and `end`.
pub open spec fn fits(top: int, end: int, num: int) -> bool {
    top + num * GRANULE_SIZE <= end
}

/// Where `top` stands after a request for `num` pages: above them where
/// they fit below `end`, and where it stood where they do not.
pub open spec fn top_after(top: int, end: int, num: int) -> int {
    if fits(top, end, num) {
        top + num * GRANULE_SIZE
    } else {
        top
    }
}

/// Where `top` stands after the first `count` of a series of requests.
pub open spec fn top_after_all(top: int, end: int, requests: Seq<int>, count: nat) -> int
    decreases count,
{
    if count == 0 {
        top
    } else {
        top_after(
            top_after_all(top, end, requests, (count - 1) as nat),
            end,
            requests[count - 1],
        )
    }
}

/// The pages granted by the first `count` of a series of requests.
pub open spec fn granted(top: int, end: int, requests: Seq<int>, count: nat) -> int
    decreases count,
{
    if count == 0 {
        0
    } else if fits(
        top_after_all(top, end, requests, (count - 1) as nat),
        end,
        requests[count - 1],
    ) {
        granted(top, end, requests, (count - 1) as nat) + requests[count - 1]
    } else {
        granted(top, end, requests, (count - 1) as nat)
    }
}

/// Over any series of requests to a fresh pool of `capacity` pages, `top`
/// stands above the start by exactly the pages granted so far, these are
/// never more than the capacity, and the next request is granted exactly
/// when it fits the capacity together with the pages granted before it.
pub proof fn lemma_bump_series(start: int, capacity: int, requests: Seq<int>, count: nat)
    requires
        capacity >= 0,
        count <= requests.len(),
        forall|i: int| 0 <= i < requests.len() ==> requests[i] >= 0,
    ensures
        ({
            let end = start + capacity * GRANULE_SIZE;
            let top = top_after_all(start, end, requests, count);
            let pages = granted(start, end, requests, count);
            &&& top == start + pages * GRANULE_SIZE
            &&& 0 <= pages <= capacity
            &&& count < requests.len() ==> (fits(top, end, requests[count as int]) <==> pages
                + requests[count as int] <= capacity)
        }),
    decreases count,
{
    let end = start + capacity * GRANULE_SIZE;
    if count > 0 {
        lemma_bump_series(start, capacity, requests, (count - 1) as nat);
    }
    if count < requests.len() {
        let g = granted(start, end, requests, count);
        let n = requests[count as int];
        assert((g + n) * GRANULE_SIZE == g * GRANULE_SIZE + n * GRANULE_SIZE) by (nonlinear_arith);
    }
}

impl StackPageAllocator {
    /// The allocator's state.
    pub closed spec fn state(&self) -> StackPageAllocatorMetadata {
        self.metadata
    }

    /// This allocator with `top` at another place.
    pub closed spec fn with_top(&self, top: int) -> Self {
        StackPageAllocator {
            metadata: StackPageAllocatorMetadata {
                start: self.metadata.start,
                end: self.metadata.end,
                top: Address::at(top as usize),
            },
        }
    }

    /// Moving `top` moves nothing else.
    pub proof fn lemma_with_top(&self, top: int)
        requires
            0 <= top <= usize::MAX,
        ensures
            self.with_top(top).state().top_spec() == top,
            self.with_top(top).state().start_spec() == self.state().start_spec(),
            self.with_top(top).state().end_spec() == self.state().end_spec(),
    {
        Address::<Physical>::lemma_at(top as usize);
    }

    /// An allocator over the state `metadata`.
    pub fn new(metadata: StackPageAllocatorMetadata) -> (r: Self)
        ensures
            r.state() == metadata,
    {
        Self { metadata }
    }

    /// The allocator's state.
    pub fn metadata(&self) -> (r: &StackPageAllocatorMetadata)
        ensures
            *r == self.state(),
    {
        &self.metadata
    }

    /// Where the next page comes from.
    pub fn top(&self) -> (r: Address<Physical>)
        ensures
            r@ == self.state().top_spec(),
    {
        self.metadata.top
    }
}

impl PageAllocator for StackPageAllocator {
    /// The pool has been initialized.
    open spec fn inv(&self) -> bool {
        self.state().wf()
    }

    /// Pages that fit below the end of the pool are granted at `top`, which
    /// moves above them. Other requests are refused and change nothing.
    open spec fn alloc_spec(&self, num: usize) -> (Self, Result<int, &'static str>) {
        if fits(self.state().top_spec(), self.state().end_spec(), num as int) {
            (
                self.with_top(self.state().top_spec() + num * GRANULE_SIZE),
                Ok(self.state().top_spec()),
            )
        } else {
            (*self, Err("Page stack overflow"))
        }
    }

    /// Nothing is taken back, and nothing changes.
    open spec fn free_spec(&self, base: int, num: int) -> (Self, Result<(), &'static str>) {
        (*self, Err("Page stack free not supported"))
    }

    /// Hands out the `num` pages from `top` and moves `top` above them, if
    /// they fit below the end of the pool. Otherwise the request is refused
    /// and nothing changes.
    fn alloc_pages(&mut self, num: usize) -> (r: Result<Page<Self>, &'static str>)
        ensures
            final(self).state().start_spec() == old(self).state().start_spec(),
            final(self).state().end_spec() == old(self).state().end_spec(),
            final(self).state().top_spec() == top_after(
                old(self).state().top_spec(),
                old(self).state().end_spec(),
                num as int,
            ),
            r is Ok <==> fits(
                old(self).state().top_spec(),
                old(self).state().end_spec(),
                num as int,
            ),
            r matches Ok(p) ==> p.base_spec() == old(self).state().top_spec(),
            r is Err ==> r == Err::<Page<Self>, &str>("Page stack overflow"),
    {
        proof {
            self.metadata.lemma_bounds();
        }
        let top = self.metadata.top.into_usize();
        let end = self.metadata.end.into_usize();
        let size = match num.checked_mul(GRANULE_SIZE) {
            Some(s) => s,
            None => {
                return Err("Page stack overflow");
            },
        };
        if size > end - top {
            return Err("Page stack overflow");
        }
        let page = Page::from_raw(self.metadata.top, num);
        self.metadata.top = self.metadata.top.add(size);
        Ok(page)
    }

    /// Always refuses: the pool takes nothing back.
    fn free_pages(&mut self, pages: &mut Page<Self>) -> (r: Result<(), &'static str>)
        ensures
            r == Err::<(), &str>("Page stack free not supported"),
            *final(self) == *old(self),
            *final(pages) == *old(pages),
    {
        Err("Page stack free not supported")
    }
}

} // verus!
