//! Physical frame allocation from the boot memory map, and the pages that back
//! the kernel heap.
use vstd::prelude::*;
use crate::heap::{HEAP_SIZE, HEAP_START};

verus! {

/// Size of a page and of a physical frame.
pub const PAGE_SIZE: u64 = 4096;

/// One entry of the boot memory map: the addresses `start..end`, and whether
/// the region was free for use when the kernel started.
#[derive(Clone, Copy, Debug, PartialEq, Eq, Structural)]
pub struct MemoryRegion {
    pub start: u64,
    pub end: u64,
    pub usable: bool,
}

/// The start of the page or frame that contains `addr`.
pub open spec fn align_down(addr: int) -> int {
    addr - addr % PAGE_SIZE as int
}

/// The number of addresses `start, start + 4096, ...` below `end`.
pub open spec fn steps_in(start: int, end: int) -> int {
    if start < end {
        (end - start + PAGE_SIZE - 1) / PAGE_SIZE as int
    } else {
        0
    }
}

/// The frames of one region: the frame of every 4096th address from its start
/// below its end, if the region is usable, and none otherwise.
pub open spec fn region_frames(r: MemoryRegion) -> Seq<u64> {
    if r.usable {
        Seq::new(
            steps_in(r.start as int, r.end as int) as nat,
            |k: int| align_down(r.start + k * PAGE_SIZE) as u64,
        )
    } else {
        Seq::empty()
    }
}

/// The usable frames of a memory map, region by region.
pub open spec fn usable_frames(regions: Seq<MemoryRegion>) -> Seq<u64>
    decreases regions.len(),
{
    if regions.len() == 0 {
        Seq::empty()
    } else {
        region_frames(regions[0]) + usable_frames(regions.drop_first())
    }
}

/// A usable region yields one frame for every address `start + k * 4096`
/// below its end, and no more: the `k`-th frame is the frame that contains
/// that address. A region that is not usable yields none.
pub proof fn lemma_region_yields_every_step(r: MemoryRegion, k: int)
    requires
        0 <= k,
    ensures
        r.usable ==> (k < region_frames(r).len() <==> r.start + k * PAGE_SIZE < r.end),
        r.usable && r.start + k * PAGE_SIZE < r.end ==> {
            let a = r.start + k * PAGE_SIZE;
            &&& region_frames(r)[k] <= a < region_frames(r)[k] + PAGE_SIZE
            &&& region_frames(r)[k] % PAGE_SIZE == 0
        },
        !r.usable ==> region_frames(r).len() == 0,
{
    let s = r.start as int;
    let e = r.end as int;
    if r.usable && s < e {
        assert(k < (e - s + 4095) / 4096 <==> s + k * 4096 < e) by (nonlinear_arith)
            requires
                0 <= k,
                s < e,
        ;
    }
    if r.usable && s >= e {
        assert(s + k * 4096 >= e) by (nonlinear_arith)
            requires
                0 <= k,
                s >= e,
        ;
    }
}

/// A region that starts and ends on a frame boundary.
pub open spec fn region_aligned(r: MemoryRegion) -> bool {
    r.start % PAGE_SIZE == 0 && r.end % PAGE_SIZE == 0 && r.start <= r.end
}

/// The usable regions of the map are frame-aligned and do not overlap.
pub open spec fn usable_regions_disjoint(rs: Seq<MemoryRegion>) -> bool {
    &&& forall|k: int| 0 <= k < rs.len() && rs[k].usable ==> #[trigger] region_aligned(rs[k])
    &&& forall|k: int, l: int|
        0 <= k < rs.len() && 0 <= l < rs.len() && k != l && rs[k].usable && rs[l].usable
            ==> #[trigger] rs[k].end <= #[trigger] rs[l].start || rs[l].end <= rs[k].start
}

proof fn lemma_aligned_region_frame(r: MemoryRegion, k: int)
    requires
        r.usable,
        region_aligned(r),
        0 <= k < region_frames(r).len(),
    ensures
        region_frames(r)[k] == r.start + k * PAGE_SIZE,
        r.start <= region_frames(r)[k] < r.end,
{
    let s = r.start as int;
    let e = r.end as int;
    assert((s + k * 4096) % 4096 == 0) by (nonlinear_arith)
        requires
            s % 4096 == 0,
    ;
    assert(k * 4096 < e - s) by (nonlinear_arith)
        requires
            0 <= k < (e - s + 4095) / 4096,
            (e - s) % 4096 == 0,
            s < e,
    ;
}

/// The regions after the first keep the alignment and disjointness of the map.
proof fn lemma_rest_regions_disjoint(rs: Seq<MemoryRegion>)
    requires
        rs.len() > 0,
        usable_regions_disjoint(rs),
    ensures
        usable_regions_disjoint(rs.drop_first()),
{
    let rest = rs.drop_first();
    assert forall|k: int| 0 <= k < rest.len() && rest[k].usable implies #[trigger] region_aligned(rest[k]) by {
        assert(rest[k] == rs[k + 1]);
    }
    assert forall|k: int, l: int|
        0 <= k < rest.len() && 0 <= l < rest.len() && k != l && rest[k].usable && rest[l].usable
            implies #[trigger] rest[k].end <= #[trigger] rest[l].start || rest[l].end <= rest[k].start by {
        assert(rest[k] == rs[k + 1] && rest[l] == rs[l + 1]);
    }
}

proof fn lemma_frames_inside_regions(rs: Seq<MemoryRegion>, j: int)
    requires
        usable_regions_disjoint(rs),
        0 <= j < usable_frames(rs).len(),
    ensures
        exists|k: int|
            0 <= k < rs.len() && rs[k].usable && rs[k].start <= #[trigger] usable_frames(rs)[j] < rs[k].end,
    decreases rs.len(),
{
    let head = region_frames(rs[0]);
    let rest = rs.drop_first();
    lemma_rest_regions_disjoint(rs);
    if j < head.len() {
        assert(rs[0].usable);
        lemma_aligned_region_frame(rs[0], j);
        assert(usable_frames(rs)[j] == head[j]);
    } else {
        lemma_frames_inside_regions(rest, j - head.len());
        let k = choose|k: int|
            0 <= k < rest.len() && rest[k].usable && rest[k].start <= #[trigger] usable_frames(rest)[j - head.len()] < rest[k].end;
        assert(usable_frames(rs)[j] == usable_frames(rest)[j - head.len()]);
        assert(rs[k + 1] == rest[k]);
    }
}

/// When the usable regions are frame-aligned and do not overlap, no frame is
/// handed out twice: the usable frames are all different, and each lies in a
/// usable region.
pub proof fn lemma_usable_frames_distinct(rs: Seq<MemoryRegion>)
    requires
        usable_regions_disjoint(rs),
    ensures
        forall|i: int, j: int|
            0 <= i < j < usable_frames(rs).len() ==> #[trigger] usable_frames(rs)[i] != #[trigger] usable_frames(rs)[j],
        forall|j: int| 0 <= j < usable_frames(rs).len() ==> exists|k: int|
            0 <= k < rs.len() && rs[k].usable && rs[k].start <= #[trigger] usable_frames(rs)[j] < rs[k].end,
    decreases rs.len(),
{
    assert forall|j: int| 0 <= j < usable_frames(rs).len() implies exists|k: int|
        0 <= k < rs.len() && rs[k].usable && rs[k].start <= #[trigger] usable_frames(rs)[j] < rs[k].end by {
        lemma_frames_inside_regions(rs, j);
    }
    if rs.len() > 0 {
        let head = region_frames(rs[0]);
        let rest = rs.drop_first();
        lemma_rest_regions_disjoint(rs);
        lemma_usable_frames_distinct(rest);
        let all = usable_frames(rs);
        assert(all == head + usable_frames(rest));
        assert forall|i: int, j: int| 0 <= i < j < all.len() implies #[trigger] all[i] != #[trigger] all[j] by {
            if j < head.len() {
                lemma_aligned_region_frame(rs[0], i);
                lemma_aligned_region_frame(rs[0], j);
            } else if i >= head.len() {
                assert(all[i] == usable_frames(rest)[i - head.len()]);
                assert(all[j] == usable_frames(rest)[j - head.len()]);
            } else {
                lemma_aligned_region_frame(rs[0], i);
                lemma_frames_inside_regions(rest, j - head.len());
                let k = choose|k: int|
                    0 <= k < rest.len() && rest[k].usable && rest[k].start <= #[trigger] usable_frames(rest)[j - head.len()] < rest[k].end;
                assert(all[j] == usable_frames(rest)[j - head.len()]);
                assert(rs[k + 1] == rest[k]);
                assert(rs[0].end <= rs[k + 1].start || rs[k + 1].end <= rs[0].start);
            }
        }
    }
}

/// Hands out the usable frames of the boot memory map one after the other.
pub struct PhysicalMemoryAllocator {
    memory_map: Vec<MemoryRegion>,
    next: usize,
}

impl PhysicalMemoryAllocator {
    /// The memory map.
    pub closed spec fn regions(&self) -> Seq<MemoryRegion> {
        self.memory_map@
    }

    /// How many frames were handed out.
    pub closed spec fn handed_out(&self) -> int {
        self.next as int
    }

    /// An allocator over `memory_map`, in which every region marked usable
    /// must really be unused.
    pub fn new(memory_map: Vec<MemoryRegion>) -> (r: Self)
        ensures
            r.regions() == memory_map@,
            r.handed_out() == 0,
    {
        PhysicalMemoryAllocator { memory_map, next: 0 }
    }

    /// How many frames were handed out.
    pub fn frames_handed_out(&self) -> (r: usize)
        ensures
            r == self.handed_out(),
    {
        self.next
    }

    /// The next usable frame: the `n`-th usable frame of the memory map on
    /// the `n`-th call, or `None` once they are used up.
    pub fn allocate_frame(&mut self) -> (r: Option<u64>)
        requires
            old(self).handed_out() < usize::MAX,
        ensures
            final(self).regions() == old(self).regions(),
            final(self).handed_out() == old(self).handed_out() + 1,
            r == (if old(self).handed_out() < usable_frames(old(self).regions()).len() {
                Some(usable_frames(old(self).regions())[old(self).handed_out()])
            } else {
                None::<u64>
            }),
    {
        let r = self.nth_usable_frame(self.next);
        self.next = self.next + 1;
        r
    }

    /// The `n`-th usable frame of the memory map, if there is one.
    pub fn nth_usable_frame(&self, n: usize) -> (r: Option<u64>)
        ensures
            r == (if n < usable_frames(self.regions()).len() {
                Some(usable_frames(self.regions())[n as int])
            } else {
                None::<u64>
            }),
    {
        let ghost all = self.memory_map@;
        let mut k: usize = 0;
        let mut rest: u64 = n as u64;
        assert(all.skip(0) =~= all);
        while k < self.memory_map.len()
            invariant
                all == self.memory_map@,
                k <= all.len(),
                n < usable_frames(all).len() <==> rest < usable_frames(all.skip(k as int)).len(),
                n < usable_frames(all).len() ==> usable_frames(all)[n as int] == usable_frames(all.skip(k as int))[rest as int],
            decreases all.len() - k,
        {
            let region = self.memory_map[k];
            let ghost tail = all.skip(k as int);
            assert(tail[0] == region);
            assert(tail.drop_first() =~= all.skip(k + 1));
            let count: u64 = if region.usable && region.start < region.end {
                let span = region.end - region.start;
                if span % PAGE_SIZE == 0 {
                    span / PAGE_SIZE
                } else {
                    span / PAGE_SIZE + 1
                }
            } else {
                0
            };
            assert(region_frames(region).len() == count);
            if rest < count {
                let addr = region.start + rest * PAGE_SIZE;
                assert(addr < region.end) by (nonlinear_arith)
                    requires
                        rest < count,
                        count == (region.end - region.start + PAGE_SIZE - 1) / PAGE_SIZE as int,
                        region.start < region.end,
                        addr == region.start + rest * PAGE_SIZE,
                ;
                let frame = addr - addr % PAGE_SIZE;
                assert(usable_frames(tail) == region_frames(region) + usable_frames(tail.drop_first()));
                assert(region_frames(region)[rest as int] == frame);
                return Some(frame);
            }
            assert(usable_frames(tail) == region_frames(region) + usable_frames(tail.drop_first()));
            rest = rest - count;
            k = k + 1;
        }
        assert(all.skip(k as int) =~= Seq::<MemoryRegion>::empty());
        None
    }
}

/// The number of pages that back the heap.
pub open spec fn heap_page_count() -> int {
    (align_down(HEAP_START + HEAP_SIZE - 1) - align_down(HEAP_START as int)) / PAGE_SIZE as int + 1
}

/// The pages that back the heap: every page from the one that contains the
/// first heap address to the one that contains the last, in address order.
pub open spec fn heap_page_seq() -> Seq<u64> {
    Seq::new(heap_page_count() as nat, |k: int| (align_down(HEAP_START as int) + k * PAGE_SIZE) as u64)
}

/// The start addresses of the pages that back the heap.
pub fn heap_pages() -> (r: Vec<u64>)
    ensures
        r@ == heap_page_seq(),
{
    let first = HEAP_START - HEAP_START % PAGE_SIZE;
    let last_addr = HEAP_START + HEAP_SIZE - 1;
    let last = last_addr - last_addr % PAGE_SIZE;
    assert(first == 0x4444_4444_0000);
    assert(last == 0x4444_4444_0000 + 24 * 4096);
    let mut pages: Vec<u64> = Vec::new();
    let mut page = first;
    while page <= last
        invariant
            first <= page <= last + PAGE_SIZE,
            first == 0x4444_4444_0000,
            last == 0x4444_4444_0000 + 24 * 4096,
            (page - first) % (PAGE_SIZE as int) == 0,
            pages@.len() == (page - first) / (PAGE_SIZE as int),
            forall|k: int| 0 <= k < pages@.len() ==> #[trigger] pages@[k] == first + k * PAGE_SIZE,
        decreases last + PAGE_SIZE - page,
    {
        pages.push(page);
        page = page + PAGE_SIZE;
    }
    assert(heap_page_count() == 25);
    assert(pages@ =~= heap_page_seq());
    pages
}

} // verus!
