//! The kernel heap: a first-fit free-list allocator over a fixed virtual range.
//!
//! Every free region starts with a block header, so regions are handed out in
//! multiples of the header size. Allocating carves the request from the front
//! of the first free block that is large enough; freeing puts the region at
//! the front of the list and then merges every free block with the free block
//! that starts where it ends.
use vstd::prelude::*;

verus! {

/// Size of a free-block header; every region is a multiple of it.
pub const BLOCK_SIZE: u64 = 32;

/// First address of the heap.
pub const HEAP_START: u64 = 0x4444_4444_0000;

/// Size of the heap in bytes (100 KiB).
pub const HEAP_SIZE: u64 = 102400;

/// One free region: `size` bytes starting at `addr`.
#[derive(Clone, Copy, Debug, PartialEq, Eq, Structural)]
pub struct FreeBlock {
    pub addr: u64,
    pub size: u64,
}

/// One past the last address of the heap.
pub open spec fn heap_end() -> int {
    HEAP_START + HEAP_SIZE
}

/// One past the last address of a free region.
pub open spec fn block_end(b: FreeBlock) -> int {
    b.addr + b.size
}

/// The number of bytes reserved for a request of `size` bytes: the request
/// rounded down to whole headers, plus one header.
pub open spec fn allocation_size(size: int) -> int {
    (size / BLOCK_SIZE as int + 1) * BLOCK_SIZE
}

/// The bytes reserved for a request cover the whole request with room for
/// more: more than the request, at most one header more, and a whole number
/// of headers.
pub proof fn lemma_allocation_covers_request(size: int)
    requires
        0 <= size,
    ensures
        size < allocation_size(size) <= size + BLOCK_SIZE,
        allocation_size(size) % BLOCK_SIZE as int == 0,
{
}

/// A free region that lies inside the heap, starts on a header boundary and
/// is a non-empty multiple of the header size.
pub open spec fn block_wf(b: FreeBlock) -> bool {
    &&& HEAP_START <= b.addr
    &&& b.addr % BLOCK_SIZE == 0
    &&& b.size > 0
    &&& b.size % BLOCK_SIZE == 0
    &&& block_end(b) <= heap_end()
}

pub open spec fn blocks_wf(bs: Seq<FreeBlock>) -> bool {
    forall|k: int| 0 <= k < bs.len() ==> #[trigger] block_wf(bs[k])
}

/// Block `i` is the first block of the list that can hold `n` bytes.
pub open spec fn first_fit_at(bs: Seq<FreeBlock>, n: int, i: int) -> bool {
    &&& 0 <= i < bs.len()
    &&& bs[i].size >= n
    &&& forall|k: int| 0 <= k < i ==> #[trigger] bs[k].size < n
}

/// No block of the list can hold `n` bytes.
pub open spec fn no_fit(bs: Seq<FreeBlock>, n: int) -> bool {
    forall|k: int| 0 <= k < bs.len() ==> #[trigger] bs[k].size < n
}

/// The list after taking `n` bytes from the front of block `i`: the rest of
/// the block stays in its place, or the block leaves the list if nothing is left.
pub open spec fn carve(bs: Seq<FreeBlock>, i: int, n: int) -> Seq<FreeBlock> {
    if bs[i].size > n {
        bs.update(i, FreeBlock { addr: (bs[i].addr + n) as u64, size: (bs[i].size - n) as u64 })
    } else {
        bs.remove(i)
    }
}

/// Index of the first block that starts where block `i` ends, if there is one.
pub open spec fn merge_partner(bs: Seq<FreeBlock>, i: int, j: int) -> bool {
    &&& 0 <= j < bs.len()
    &&& bs[j].addr == block_end(bs[i])
    &&& forall|k: int| 0 <= k < j ==> #[trigger] bs[k].addr != block_end(bs[i])
}

pub open spec fn has_merge_partner(bs: Seq<FreeBlock>, i: int) -> bool {
    exists|j: int| merge_partner(bs, i, j)
}

/// Block `i` absorbs block `j`, which starts where block `i` ends.
pub open spec fn merged(bs: Seq<FreeBlock>, i: int, j: int) -> Seq<FreeBlock> {
    bs.update(i, FreeBlock { addr: bs[i].addr, size: (bs[i].size + bs[j].size) as u64 }).remove(j)
}

/// The coalescing pass from block `i` on: each block in list order absorbs the
/// first block that starts where it ends (at most one per visit), and the pass
/// continues with the block that follows it.
pub open spec fn coalesce_from(bs: Seq<FreeBlock>, i: int) -> Seq<FreeBlock>
    decreases bs.len() - i,
{
    if i < 0 || i >= bs.len() {
        bs
    } else if has_merge_partner(bs, i) {
        let j = choose|j: int| merge_partner(bs, i, j);
        if j == i {
            bs
        } else if j < i {
            coalesce_from(merged(bs, i, j), i)
        } else {
            coalesce_from(merged(bs, i, j), i + 1)
        }
    } else {
        coalesce_from(bs, i + 1)
    }
}

/// The whole coalescing pass over a free list.
pub open spec fn coalesce(bs: Seq<FreeBlock>) -> Seq<FreeBlock> {
    coalesce_from(bs, 0)
}

/// Total number of free bytes in the list.
pub open spec fn free_bytes(bs: Seq<FreeBlock>) -> int
    decreases bs.len(),
{
    if bs.len() == 0 {
        0
    } else {
        bs[0].size + free_bytes(bs.drop_first())
    }
}

/// Address `a` lies inside block `b`.
pub open spec fn in_block(b: FreeBlock, a: int) -> bool {
    b.addr <= a < block_end(b)
}

/// Address `a` lies in some free block of the list.
pub open spec fn is_free(bs: Seq<FreeBlock>, a: int) -> bool {
    exists|k: int| 0 <= k < bs.len() && #[trigger] in_block(bs[k], a)
}

/// The two blocks do not overlap.
pub open spec fn separate(x: FreeBlock, y: FreeBlock) -> bool {
    block_end(x) <= y.addr || block_end(y) <= x.addr
}

/// No two blocks of the list overlap.
pub open spec fn blocks_disjoint(bs: Seq<FreeBlock>) -> bool {
    forall|k: int, l: int|
        0 <= k < bs.len() && 0 <= l < bs.len() && k != l ==> #[trigger] separate(bs[k], bs[l])
}

proof fn lemma_free_bytes_update(bs: Seq<FreeBlock>, i: int, x: FreeBlock)
    requires
        0 <= i < bs.len(),
    ensures
        free_bytes(bs.update(i, x)) == free_bytes(bs) - bs[i].size + x.size,
    decreases i,
{
    if i == 0 {
        assert(bs.update(0, x).drop_first() =~= bs.drop_first());
    } else {
        assert(bs.update(i, x).drop_first() =~= bs.drop_first().update(i - 1, x));
        lemma_free_bytes_update(bs.drop_first(), i - 1, x);
    }
}

proof fn lemma_free_bytes_remove(bs: Seq<FreeBlock>, i: int)
    requires
        0 <= i < bs.len(),
    ensures
        free_bytes(bs.remove(i)) == free_bytes(bs) - bs[i].size,
    decreases i,
{
    if i == 0 {
        assert(bs.remove(0) =~= bs.drop_first());
    } else {
        assert(bs.remove(i).drop_first() =~= bs.drop_first().remove(i - 1));
        lemma_free_bytes_remove(bs.drop_first(), i - 1);
    }
}

/// One merge step keeps the free list well formed and disjoint, and frees
/// exactly the same addresses.
proof fn lemma_merge_preserves(bs: Seq<FreeBlock>, i: int, j: int)
    requires
        blocks_wf(bs),
        blocks_disjoint(bs),
        0 <= i < bs.len(),
        merge_partner(bs, i, j),
        j != i,
    ensures
        blocks_wf(merged(bs, i, j)),
        blocks_disjoint(merged(bs, i, j)),
        free_bytes(merged(bs, i, j)) == free_bytes(bs),
        forall|a: int| is_free(merged(bs, i, j), a) == is_free(bs, a),
{
    let big = FreeBlock { addr: bs[i].addr, size: (bs[i].size + bs[j].size) as u64 };
    let u = bs.update(i, big);
    let m = merged(bs, i, j);
    assert(block_wf(bs[i]));
    assert(block_wf(bs[j]));
    assert(block_wf(big));
    lemma_free_bytes_update(bs, i, big);
    lemma_free_bytes_remove(u, j);
    assert(m.len() == bs.len() - 1);
    let bi = if i < j { i } else { i - 1 };
    assert(m[bi] == big);
    assert forall|k: int| 0 <= k < m.len() implies #[trigger] block_wf(m[k]) by {
        let ok = if k < j { k } else { k + 1 };
        assert(m[k] == u[ok]);
        if ok != i {
            assert(block_wf(bs[ok]));
        }
    }
    assert forall|k: int, l: int|
        0 <= k < m.len() && 0 <= l < m.len() && k != l implies #[trigger] separate(m[k], m[l]) by {
        let ok = if k < j { k } else { k + 1 };
        let ol = if l < j { l } else { l + 1 };
        assert(m[k] == u[ok]);
        assert(m[l] == u[ol]);
        assert(ok != ol);
        if ok == i {
            assert(separate(bs[i], bs[ol]));
            assert(separate(bs[j], bs[ol]));
            assert(block_wf(bs[ol]));
        } else if ol == i {
            assert(separate(bs[i], bs[ok]));
            assert(separate(bs[j], bs[ok]));
            assert(block_wf(bs[ok]));
        } else {
            assert(separate(bs[ok], bs[ol]));
        }
    }
    assert forall|a: int| is_free(m, a) == is_free(bs, a) by {
        if is_free(m, a) {
            let k = choose|k: int| 0 <= k < m.len() && #[trigger] in_block(m[k], a);
            let ok = if k < j { k } else { k + 1 };
            assert(m[k] == u[ok]);
            if ok == i {
                if a < block_end(bs[i]) {
                    assert(in_block(bs[i], a));
                } else {
                    assert(in_block(bs[j], a));
                }
            } else {
                assert(in_block(bs[ok], a));
            }
        }
        if is_free(bs, a) {
            let k = choose|k: int| 0 <= k < bs.len() && #[trigger] in_block(bs[k], a);
            if k == i || k == j {
                assert(in_block(m[bi], a));
            } else {
                let mk = if k < j { k } else { k - 1 };
                assert(m[mk] == u[k]);
                assert(in_block(m[mk], a));
            }
        }
    }
}

/// Coalescing keeps the free list well formed and disjoint, loses no free
/// byte and frees no other address.
pub proof fn lemma_coalesce_preserves(bs: Seq<FreeBlock>, i: int)
    requires
        blocks_wf(bs),
        blocks_disjoint(bs),
    ensures
        blocks_wf(coalesce_from(bs, i)),
        blocks_disjoint(coalesce_from(bs, i)),
        free_bytes(coalesce_from(bs, i)) == free_bytes(bs),
        forall|a: int| is_free(coalesce_from(bs, i), a) == is_free(bs, a),
    decreases bs.len() - i,
{
    if i < 0 || i >= bs.len() {
    } else if has_merge_partner(bs, i) {
        let j = choose|j: int| merge_partner(bs, i, j);
        if j != i {
            lemma_merge_preserves(bs, i, j);
            if j < i {
                lemma_coalesce_preserves(merged(bs, i, j), i);
            } else {
                lemma_coalesce_preserves(merged(bs, i, j), i + 1);
            }
        }
    } else {
        lemma_coalesce_preserves(bs, i + 1);
    }
}

/// An allocation hands out a region that was free, and afterwards exactly
/// that region is no longer free: the free byte count drops by its size and
/// the free list stays well formed and disjoint.
pub proof fn lemma_allocate_takes_region(bs: Seq<FreeBlock>, size: int, i: int)
    requires
        blocks_wf(bs),
        blocks_disjoint(bs),
        0 <= size,
        first_fit_at(bs, allocation_size(size), i),
    ensures
        ({
            let n = allocation_size(size);
            let p = bs[i].addr as int;
            let c = carve(bs, i, n);
            &&& blocks_wf(c)
            &&& blocks_disjoint(c)
            &&& free_bytes(c) == free_bytes(bs) - n
            &&& forall|a: int| p <= a < p + n ==> is_free(bs, a)
            &&& forall|a: int| is_free(c, a) == (is_free(bs, a) && !(p <= a < p + n))
        }),
{
    let n = allocation_size(size);
    let p = bs[i].addr as int;
    let c = carve(bs, i, n);
    assert(n % 32 == 0 && n > 0);
    assert(block_wf(bs[i]));
    assert forall|a: int| p <= a < p + n implies is_free(bs, a) by {
        assert(in_block(bs[i], a));
    }
    if bs[i].size > n {
        let rest = FreeBlock { addr: (bs[i].addr + n) as u64, size: (bs[i].size - n) as u64 };
        lemma_free_bytes_update(bs, i, rest);
        assert forall|k: int| 0 <= k < c.len() implies #[trigger] block_wf(c[k]) by {
            if k != i {
                assert(block_wf(bs[k]));
            }
        }
        assert forall|k: int, l: int|
            0 <= k < c.len() && 0 <= l < c.len() && k != l implies #[trigger] separate(c[k], c[l]) by {
            assert(separate(bs[k], bs[l]));
        }
        assert forall|a: int| is_free(c, a) == (is_free(bs, a) && !(p <= a < p + n)) by {
            if is_free(c, a) {
                let k = choose|k: int| 0 <= k < c.len() && #[trigger] in_block(c[k], a);
                if k == i {
                    assert(in_block(bs[i], a));
                } else {
                    assert(in_block(bs[k], a));
                    assert(separate(bs[k], bs[i]));
                }
            }
            if is_free(bs, a) && !(p <= a < p + n) {
                let k = choose|k: int| 0 <= k < bs.len() && #[trigger] in_block(bs[k], a);
                if k == i {
                    assert(in_block(c[i], a));
                } else {
                    assert(in_block(c[k], a));
                }
            }
        }
    } else {
        lemma_free_bytes_remove(bs, i);
        assert forall|k: int| 0 <= k < c.len() implies #[trigger] block_wf(c[k]) by {
            let ok = if k < i { k } else { k + 1 };
            assert(c[k] == bs[ok]);
            assert(block_wf(bs[ok]));
        }
        assert forall|k: int, l: int|
            0 <= k < c.len() && 0 <= l < c.len() && k != l implies #[trigger] separate(c[k], c[l]) by {
            let ok = if k < i { k } else { k + 1 };
            let ol = if l < i { l } else { l + 1 };
            assert(c[k] == bs[ok]);
            assert(c[l] == bs[ol]);
            assert(separate(bs[ok], bs[ol]));
        }
        assert forall|a: int| is_free(c, a) == (is_free(bs, a) && !(p <= a < p + n)) by {
            if is_free(c, a) {
                let k = choose|k: int| 0 <= k < c.len() && #[trigger] in_block(c[k], a);
                let ok = if k < i { k } else { k + 1 };
                assert(c[k] == bs[ok]);
                assert(in_block(bs[ok], a));
                assert(separate(bs[ok], bs[i]));
            }
            if is_free(bs, a) && !(p <= a < p + n) {
                let k = choose|k: int| 0 <= k < bs.len() && #[trigger] in_block(bs[k], a);
                assert(k != i);
                let ck = if k < i { k } else { k - 1 };
                assert(c[ck] == bs[k]);
                assert(in_block(c[ck], a));
            }
        }
    }
}

/// Putting a region that is not free in front of a well-formed disjoint
/// list gives a well-formed disjoint list.
proof fn lemma_prepend_region(bs: Seq<FreeBlock>, ptr: int, size: int)
    requires
        blocks_wf(bs),
        blocks_disjoint(bs),
        0 <= size,
        HEAP_START <= ptr,
        ptr % BLOCK_SIZE as int == 0,
        ptr + allocation_size(size) <= heap_end(),
        forall|a: int| ptr <= a < ptr + allocation_size(size) ==> !is_free(bs, a),
    ensures
        ({
            let s = seq![FreeBlock { addr: ptr as u64, size: allocation_size(size) as u64 }] + bs;
            &&& blocks_wf(s)
            &&& blocks_disjoint(s)
            &&& s.drop_first() == bs
        }),
{
    let n = allocation_size(size);
    assert(n % 32 == 0 && n > 0);
    let x = FreeBlock { addr: ptr as u64, size: n as u64 };
    let s = seq![x] + bs;
    assert(s.drop_first() =~= bs);
    assert(block_wf(x));
    assert forall|k: int| 0 <= k < s.len() implies #[trigger] block_wf(s[k]) by {
        if k > 0 {
            assert(s[k] == bs[k - 1]);
            assert(block_wf(bs[k - 1]));
        }
    }
    assert forall|k: int| 0 <= k < bs.len() implies #[trigger] separate(x, bs[k]) by {
        assert(block_wf(bs[k]));
        if !separate(x, bs[k]) {
            let a = if ptr < bs[k].addr { bs[k].addr as int } else { ptr };
            assert(in_block(bs[k], a));
            assert(is_free(bs, a));
        }
    }
    assert forall|k: int, l: int|
        0 <= k < s.len() && 0 <= l < s.len() && k != l implies #[trigger] separate(s[k], s[l]) by {
        if k == 0 {
            assert(s[l] == bs[l - 1]);
            assert(separate(x, bs[l - 1]));
        } else if l == 0 {
            assert(s[k] == bs[k - 1]);
            assert(separate(x, bs[k - 1]));
        } else {
            assert(s[k] == bs[k - 1]);
            assert(s[l] == bs[l - 1]);
            assert(separate(bs[k - 1], bs[l - 1]));
        }
    }
}

/// Freeing a region that is not free adds exactly that region to the free
/// memory: the free byte count grows by its size, and after coalescing the
/// free list is still well formed and disjoint.
pub proof fn lemma_deallocate_returns_region(bs: Seq<FreeBlock>, ptr: int, size: int)
    requires
        blocks_wf(bs),
        blocks_disjoint(bs),
        0 <= size,
        HEAP_START <= ptr,
        ptr % BLOCK_SIZE as int == 0,
        ptr + allocation_size(size) <= heap_end(),
        forall|a: int| ptr <= a < ptr + allocation_size(size) ==> !is_free(bs, a),
    ensures
        ({
            let n = allocation_size(size);
            let r = coalesce(seq![FreeBlock { addr: ptr as u64, size: n as u64 }] + bs);
            &&& blocks_wf(r)
            &&& blocks_disjoint(r)
            &&& free_bytes(r) == free_bytes(bs) + n
            &&& forall|a: int| is_free(r, a) == (is_free(bs, a) || (ptr <= a < ptr + n))
        }),
{
    let n = allocation_size(size);
    assert(n % 32 == 0 && n > 0);
    let x = FreeBlock { addr: ptr as u64, size: n as u64 };
    let s = seq![x] + bs;
    assert(s.drop_first() =~= bs);
    assert(block_wf(x));
    lemma_prepend_region(bs, ptr, size);
    assert forall|a: int| is_free(s, a) == (is_free(bs, a) || (ptr <= a < ptr + n)) by {
        if is_free(s, a) {
            let k = choose|k: int| 0 <= k < s.len() && #[trigger] in_block(s[k], a);
            if k > 0 {
                assert(s[k] == bs[k - 1]);
                assert(in_block(bs[k - 1], a));
            }
        }
        if is_free(bs, a) {
            let k = choose|k: int| 0 <= k < bs.len() && #[trigger] in_block(bs[k], a);
            assert(s[k + 1] == bs[k]);
            assert(in_block(s[k + 1], a));
        }
        if ptr <= a < ptr + n {
            assert(in_block(s[0], a));
        }
    }
    lemma_coalesce_preserves(s, 0);
}

/// Freeing a region right after allocating it leaves exactly the same
/// addresses free as before the allocation, and the same number of free bytes.
pub proof fn lemma_allocate_then_free_restores(bs: Seq<FreeBlock>, size: int, i: int)
    requires
        blocks_wf(bs),
        blocks_disjoint(bs),
        0 <= size,
        first_fit_at(bs, allocation_size(size), i),
    ensures
        ({
            let n = allocation_size(size);
            let p = bs[i].addr;
            let r = coalesce(seq![FreeBlock { addr: p, size: n as u64 }] + carve(bs, i, n));
            &&& blocks_wf(r)
            &&& blocks_disjoint(r)
            &&& free_bytes(r) == free_bytes(bs)
            &&& forall|a: int| is_free(r, a) == is_free(bs, a)
        }),
{
    let n = allocation_size(size);
    let p = bs[i].addr as int;
    let c = carve(bs, i, n);
    lemma_allocate_takes_region(bs, size, i);
    assert(block_wf(bs[i]));
    lemma_deallocate_returns_region(c, p, size);
    assert(FreeBlock { addr: p as u64, size: n as u64 } == FreeBlock { addr: bs[i].addr, size: n as u64 });
}

/// Block `y` starts where block `x` ends.
pub open spec fn adjacent(x: FreeBlock, y: FreeBlock) -> bool {
    block_end(x) == y.addr
}

/// No free block starts where another one ends.
pub open spec fn no_adjacent(bs: Seq<FreeBlock>) -> bool {
    forall|k: int, l: int| 0 <= k < bs.len() && 0 <= l < bs.len() ==> !#[trigger] adjacent(bs[k], bs[l])
}

proof fn lemma_coalesce_settled(bs: Seq<FreeBlock>, i: int)
    requires
        no_adjacent(bs),
    ensures
        coalesce_from(bs, i) == bs,
    decreases bs.len() - i,
{
    if 0 <= i < bs.len() {
        if has_merge_partner(bs, i) {
            let j = choose|j: int| merge_partner(bs, i, j);
            assert(adjacent(bs[i], bs[j]));
        }
        lemma_coalesce_settled(bs, i + 1);
    }
}

/// The state of the coalescing pass over a list whose only adjacent pairs
/// involve its first block: once that block has been visited it has no block
/// right after it, and the blocks visited since do not end where it starts.
spec fn head_only_adjacent(bs: Seq<FreeBlock>, i: int) -> bool {
    &&& blocks_wf(bs)
    &&& blocks_disjoint(bs)
    &&& 0 <= i
    &&& forall|k: int, l: int|
        0 <= k < bs.len() && 0 <= l < bs.len() && #[trigger] adjacent(bs[k], bs[l]) ==> k == 0 || l == 0
    &&& i >= 1 ==> forall|l: int| 0 <= l < bs.len() ==> !#[trigger] adjacent(bs[0], bs[l])
    &&& forall|k: int| 1 <= k < i && k < bs.len() ==> !#[trigger] adjacent(bs[k], bs[0])
}

proof fn lemma_coalesce_separates(bs: Seq<FreeBlock>, i: int)
    requires
        head_only_adjacent(bs, i),
    ensures
        no_adjacent(coalesce_from(bs, i)),
    decreases bs.len() - i,
{
    if i >= bs.len() {
        assert forall|k: int, l: int| 0 <= k < bs.len() && 0 <= l < bs.len() implies !#[trigger] adjacent(bs[k], bs[l]) by {
            if adjacent(bs[k], bs[l]) {
                assert(block_wf(bs[k]));
                if k == 0 {
                } else {
                    assert(l == 0);
                }
            }
        }
    } else if has_merge_partner(bs, i) {
        let j = choose|j: int| merge_partner(bs, i, j);
        assert(adjacent(bs[i], bs[j]));
        assert(block_wf(bs[i]));
        assert(block_wf(bs[j]));
        assert(j != i);
        lemma_merge_preserves(bs, i, j);
        let m = merged(bs, i, j);
        let big = FreeBlock { addr: bs[i].addr, size: (bs[i].size + bs[j].size) as u64 };
        let u = bs.update(i, big);
        assert(m.len() == bs.len() - 1);
        if i == 0 {
            assert(j >= 1);
            assert(m[0] == big);
            assert(head_only_adjacent(m, 1)) by {
                assert forall|k: int, l: int|
                    0 <= k < m.len() && 0 <= l < m.len() && #[trigger] adjacent(m[k], m[l]) implies k == 0 || l == 0 by {
                    let ok = if k < j { k } else { k + 1 };
                    let ol = if l < j { l } else { l + 1 };
                    assert(m[k] == u[ok]);
                    assert(m[l] == u[ol]);
                    if k != 0 && l != 0 {
                        assert(adjacent(bs[ok], bs[ol]));
                    }
                }
                assert forall|l: int| 0 <= l < m.len() implies !#[trigger] adjacent(m[0], m[l]) by {
                    let ol = if l < j { l } else { l + 1 };
                    assert(m[l] == u[ol]);
                    if adjacent(m[0], m[l]) {
                        if ol == 0 {
                            assert(block_wf(bs[j]));
                        } else {
                            assert(adjacent(bs[j], bs[ol]));
                        }
                    }
                }
            }
            lemma_coalesce_separates(m, 1);
        } else {
            assert(j == 0);
            let bi = i - 1;
            assert(m[bi] == big);
            assert forall|k: int, l: int| 0 <= k < m.len() && 0 <= l < m.len() implies !#[trigger] adjacent(m[k], m[l]) by {
                let ok = k + 1;
                let ol = l + 1;
                assert(m[k] == u[ok]);
                assert(m[l] == u[ol]);
                if adjacent(m[k], m[l]) {
                    if ok == i {
                        assert(adjacent(bs[0], bs[ol]));
                    } else if ol == i {
                        assert(adjacent(bs[ok], bs[i]));
                    } else {
                        assert(adjacent(bs[ok], bs[ol]));
                    }
                }
            }
            lemma_coalesce_settled(m, i);
        }
    } else {
        assert forall|l: int| 0 <= l < bs.len() implies !#[trigger] adjacent(bs[i], bs[l]) by {
            if adjacent(bs[i], bs[l]) {
                assert forall|k: int| 0 <= k < l implies #[trigger] bs[k].addr != block_end(bs[i]) by {
                    if bs[k].addr == block_end(bs[i]) {
                        assert(separate(bs[k], bs[l]));
                        assert(block_wf(bs[k]));
                        assert(block_wf(bs[l]));
                    }
                }
                assert(merge_partner(bs, i, l));
            }
        }
        lemma_coalesce_separates(bs, i + 1);
    }
}

/// Coalescing a disjoint list in which only the first block may touch the
/// others leaves no block starting where another ends.
pub proof fn lemma_coalesce_front_block_leaves_no_adjacent(s: Seq<FreeBlock>)
    requires
        s.len() > 0,
        blocks_wf(s),
        blocks_disjoint(s),
        no_adjacent(s.drop_first()),
    ensures
        no_adjacent(coalesce(s)),
{
    assert forall|k: int, l: int|
        0 <= k < s.len() && 0 <= l < s.len() && #[trigger] adjacent(s[k], s[l]) implies k == 0 || l == 0 by {
        if k != 0 && l != 0 {
            assert(s[k] == s.drop_first()[k - 1]);
            assert(s[l] == s.drop_first()[l - 1]);
            assert(adjacent(s.drop_first()[k - 1], s.drop_first()[l - 1]));
        }
    }
    assert(head_only_adjacent(s, 0));
    lemma_coalesce_separates(s, 0);
}

/// Freeing a region into a free list in which no block starts where another
/// ends leaves such a list again: coalescing joins the region with the free
/// blocks right before and right after it.
pub proof fn lemma_deallocate_keeps_blocks_apart(bs: Seq<FreeBlock>, ptr: int, size: int)
    requires
        blocks_wf(bs),
        blocks_disjoint(bs),
        no_adjacent(bs),
        0 <= size,
        HEAP_START <= ptr,
        ptr % BLOCK_SIZE as int == 0,
        ptr + allocation_size(size) <= heap_end(),
        forall|a: int| ptr <= a < ptr + allocation_size(size) ==> !is_free(bs, a),
    ensures
        no_adjacent(coalesce(seq![FreeBlock { addr: ptr as u64, size: allocation_size(size) as u64 }] + bs)),
{
    let n = allocation_size(size);
    let x = FreeBlock { addr: ptr as u64, size: n as u64 };
    let s = seq![x] + bs;
    lemma_deallocate_returns_region(bs, ptr, size);
    assert(n % 32 == 0 && n > 0);
    lemma_prepend_region(bs, ptr, size);
    assert forall|k: int, l: int|
        0 <= k < s.len() && 0 <= l < s.len() && #[trigger] adjacent(s[k], s[l]) implies k == 0 || l == 0 by {
        if k != 0 && l != 0 {
            assert(s[k] == bs[k - 1]);
            assert(s[l] == bs[l - 1]);
            assert(adjacent(bs[k - 1], bs[l - 1]));
        }
    }
    assert(head_only_adjacent(s, 0));
    lemma_coalesce_separates(s, 0);
}

/// An allocation keeps a free list in which no block starts where another ends.
pub proof fn lemma_allocate_keeps_blocks_apart(bs: Seq<FreeBlock>, size: int, i: int)
    requires
        blocks_wf(bs),
        blocks_disjoint(bs),
        no_adjacent(bs),
        0 <= size,
        first_fit_at(bs, allocation_size(size), i),
    ensures
        no_adjacent(carve(bs, i, allocation_size(size))),
{
    let n = allocation_size(size);
    let c = carve(bs, i, n);
    assert(n % 32 == 0 && n > 0);
    assert(block_wf(bs[i]));
    if bs[i].size > n {
        assert forall|k: int, l: int| 0 <= k < c.len() && 0 <= l < c.len() implies !#[trigger] adjacent(c[k], c[l]) by {
            if adjacent(c[k], c[l]) {
                if k == i && l == i {
                } else if k == i {
                    assert(adjacent(bs[i], bs[l]));
                } else if l == i {
                    assert(block_wf(bs[k]));
                    assert(separate(bs[k], bs[i]));
                } else {
                    assert(adjacent(bs[k], bs[l]));
                }
            }
        }
    } else {
        assert forall|k: int, l: int| 0 <= k < c.len() && 0 <= l < c.len() implies !#[trigger] adjacent(c[k], c[l]) by {
            let ok = if k < i { k } else { k + 1 };
            let ol = if l < i { l } else { l + 1 };
            assert(c[k] == bs[ok]);
            assert(c[l] == bs[ol]);
            assert(!adjacent(bs[ok], bs[ol]));
        }
    }
}

/// Right after the heap is handed over, all of it is free and nothing else is.
pub proof fn lemma_init_frees_whole_heap()
    ensures
        ({
            let bs = seq![FreeBlock { addr: HEAP_START, size: HEAP_SIZE }];
            &&& blocks_wf(bs)
            &&& blocks_disjoint(bs)
            &&& free_bytes(bs) == HEAP_SIZE
            &&& no_adjacent(bs)
            &&& forall|a: int| is_free(bs, a) == (HEAP_START <= a < heap_end())
        }),
{
    let bs = seq![FreeBlock { addr: HEAP_START, size: HEAP_SIZE }];
    assert(bs.drop_first() =~= Seq::<FreeBlock>::empty());
    assert(free_bytes(Seq::<FreeBlock>::empty()) == 0);
    assert(free_bytes(bs) == HEAP_SIZE);
    assert(block_wf(bs[0]));
    assert(blocks_wf(bs));
    assert(blocks_disjoint(bs));
    assert forall|a: int| is_free(bs, a) == (HEAP_START <= a < heap_end()) by {
        if HEAP_START <= a < heap_end() {
            assert(in_block(bs[0], a));
        }
    }
}

/// The free list of the kernel heap, in list order.
pub struct Allocator {
    blocks: Vec<FreeBlock>,
}

impl View for Allocator {
    type V = Seq<FreeBlock>;

    closed spec fn view(&self) -> Seq<FreeBlock> {
        self.blocks@
    }
}

/// The free list is well formed: every block lies in the heap, no two
/// blocks overlap, and no block starts where another ends.
pub open spec fn heap_wf(bs: Seq<FreeBlock>) -> bool {
    &&& blocks_wf(bs)
    &&& blocks_disjoint(bs)
    &&& no_adjacent(bs)
}

/// No address of the `n` bytes at `ptr` is free.
pub open spec fn region_not_free(bs: Seq<FreeBlock>, ptr: int, n: int) -> bool {
    forall|a: int| ptr <= a < ptr + n ==> !is_free(bs, a)
}

impl Allocator {
    pub open spec fn wf(&self) -> bool {
        heap_wf(self@)
    }

    /// An allocator without memory; `init_self` gives it the heap.
    pub fn new() -> (r: Self)
        ensures
            r.wf(),
            r@ == Seq::<FreeBlock>::empty(),
    {
        Allocator { blocks: Vec::new() }
    }

    /// The number of bytes reserved for a request of `size` bytes.
    pub fn allocation_size(size: u64) -> (r: u64)
        requires
            size <= i64::MAX,
        ensures
            r == allocation_size(size as int),
    {
        (size / BLOCK_SIZE + 1) * BLOCK_SIZE
    }

    /// Hands the whole heap to the allocator as one free block. The heap can
    /// be handed over only while the free list is empty.
    pub fn init_self(&mut self)
        requires
            old(self)@.len() == 0,
        ensures
            final(self).wf(),
            final(self)@ == seq![FreeBlock { addr: HEAP_START, size: HEAP_SIZE }],
    {
        self.blocks.push(FreeBlock { addr: HEAP_START, size: HEAP_SIZE });
        proof {
            lemma_init_frees_whole_heap();
            assert(self@ =~= seq![FreeBlock { addr: HEAP_START, size: HEAP_SIZE }]);
        }
    }

    /// Whether the free list is empty.
    pub fn is_exhausted(&self) -> (r: bool)
        ensures
            r == (self@.len() == 0),
    {
        self.blocks.len() == 0
    }

    /// The free blocks in list order.
    pub fn free_blocks(&self) -> (r: Vec<FreeBlock>)
        ensures
            r@ == self@,
    {
        self.blocks.clone()
    }

    /// Whether no address of the region that a request of `size` bytes at
    /// `ptr` occupies is free, as it is for a region handed out and not yet
    /// given back.
    pub fn region_in_use(&self, ptr: u64, size: u64) -> (r: bool)
        requires
            self.wf(),
            size <= i64::MAX,
            ptr + allocation_size(size as int) <= heap_end(),
        ensures
            r == region_not_free(self@, ptr as int, allocation_size(size as int)),
    {
        let n = Self::allocation_size(size);
        let region = FreeBlock { addr: ptr, size: n };
        let mut k: usize = 0;
        while k < self.blocks.len()
            invariant
                self.wf(),
                k <= self@.len(),
                n == allocation_size(size as int),
                ptr + n <= heap_end(),
                region == (FreeBlock { addr: ptr, size: n }),
                forall|j: int| 0 <= j < k ==> #[trigger] separate(region, self@[j]),
            decreases self@.len() - k,
        {
            let b = self.blocks[k];
            assert(block_wf(self@[k as int]));
            if !(b.addr + b.size <= ptr || ptr + n <= b.addr) {
                proof {
                    let a = if ptr < b.addr { b.addr as int } else { ptr as int };
                    assert(in_block(self@[k as int], a));
                    assert(is_free(self@, a));
                }
                return false;
            }
            k = k + 1;
        }
        proof {
            assert forall|a: int| ptr <= a < ptr + n implies !is_free(self@, a) by {
                if is_free(self@, a) {
                    let j = choose|j: int| 0 <= j < self@.len() && #[trigger] in_block(self@[j], a);
                    assert(separate(region, self@[j]));
                }
            }
        }
        true
    }

    /// Allocates `size` bytes (the alignment of a request is not consulted:
    /// every region starts on a header boundary). Returns the address of the
    /// region, or `None` when no free block is large enough.
    pub fn allocate(&mut self, size: u64) -> (r: Option<u64>)
        requires
            old(self).wf(),
            size <= i64::MAX,
        ensures
            final(self).wf(),
            match r {
                Some(p) => exists|i: int|
                    first_fit_at(old(self)@, allocation_size(size as int), i)
                    && p == old(self)@[i].addr
                    && final(self)@ == carve(old(self)@, i, allocation_size(size as int)),
                None => no_fit(old(self)@, allocation_size(size as int))
                    && final(self)@ == old(self)@,
            },
            r matches Some(p) ==> HEAP_START <= p && p % BLOCK_SIZE == 0 && p + allocation_size(size as int) <= heap_end(),
            r matches Some(p) ==> forall|a: int|
                p <= a < p + size ==> is_free(old(self)@, a) && !is_free(final(self)@, a),
    {
        let n = Self::allocation_size(size);
        let mut i: usize = 0;
        while i < self.blocks.len()
            invariant
                i <= self.blocks@.len(),
                n == allocation_size(size as int),
                forall|k: int| 0 <= k < i ==> #[trigger] self.blocks@[k].size < n,
            ensures
                i <= self.blocks@.len(),
                i < self.blocks@.len() ==> self.blocks@[i as int].size >= n,
                forall|k: int| 0 <= k < i ==> #[trigger] self.blocks@[k].size < n,
            decreases self.blocks@.len() - i,
        {
            if self.blocks[i].size >= n {
                break;
            }
            i = i + 1;
        }
        if i == self.blocks.len() {
            return None;
        }
        let block = self.blocks[i];
        assert(block_wf(self.blocks@[i as int]));
        assert(first_fit_at(old(self)@, n as int, i as int));
        proof {
            lemma_allocate_takes_region(old(self)@, size as int, i as int);
            lemma_allocate_keeps_blocks_apart(old(self)@, size as int, i as int);
            lemma_allocation_covers_request(size as int);
        }
        if block.size > n {
            self.blocks[i] = FreeBlock { addr: block.addr + n, size: block.size - n };
        } else {
            self.blocks.remove(i);
        }
        Some(block.addr)
    }

    /// Returns the region of `size` bytes at `ptr` to the free list and then
    /// coalesces the list. The region must be one that `allocate` handed out
    /// for the same size and that is not free: it lies inside the heap,
    /// starts on a header boundary, and no address of it is free.
    pub fn deallocate(&mut self, ptr: u64, size: u64)
        requires
            old(self).wf(),
            size <= i64::MAX,
            HEAP_START <= ptr,
            ptr % BLOCK_SIZE == 0,
            ptr + allocation_size(size as int) <= heap_end(),
            region_not_free(old(self)@, ptr as int, allocation_size(size as int)),
        ensures
            final(self).wf(),
            final(self)@ == coalesce(
                seq![FreeBlock { addr: ptr, size: allocation_size(size as int) as u64 }] + old(self)@,
            ),
    {
        let n = Self::allocation_size(size);
        proof {
            lemma_prepend_region(old(self)@, ptr as int, size as int);
            lemma_deallocate_returns_region(old(self)@, ptr as int, size as int);
            lemma_deallocate_keeps_blocks_apart(old(self)@, ptr as int, size as int);
        }
        self.blocks.insert(0, FreeBlock { addr: ptr, size: n });
        assert(self@ =~= seq![FreeBlock { addr: ptr, size: n }] + old(self)@);
        self.coalesce_pass();
    }

    /// One coalescing pass over the free list. A well-formed list has no
    /// block that starts where another ends, so the pass leaves it as it is.
    pub fn defragmentate(&mut self)
        requires
            old(self).wf(),
        ensures
            final(self).wf(),
            final(self)@ == coalesce(old(self)@),
            final(self)@ == old(self)@,
    {
        proof {
            lemma_coalesce_settled(old(self)@, 0);
        }
        self.coalesce_pass();
    }

    /// One coalescing pass over a list of well-formed blocks.
    fn coalesce_pass(&mut self)
        requires
            blocks_wf(old(self)@),
        ensures
            blocks_wf(final(self)@),
            final(self)@ == coalesce(old(self)@),
    {
        let mut i: usize = 0;
        while i < self.blocks.len()
            invariant
                blocks_wf(self@),
                coalesce_from(self@, i as int) == coalesce(old(self)@),
            decreases self.blocks@.len() - i,
        {
            let ghost bs = self@;
            let b = self.blocks[i];
            assert(block_wf(bs[i as int]));
            let end = b.addr + b.size;
            let mut j: usize = 0;
            while j < self.blocks.len()
                invariant
                    self@ == bs,
                    j <= bs.len(),
                    i < bs.len(),
                    end == block_end(bs[i as int]),
                    forall|k: int| 0 <= k < j ==> #[trigger] bs[k].addr != end,
                ensures
                    j <= bs.len(),
                    j < bs.len() ==> bs[j as int].addr == end,
                    forall|k: int| 0 <= k < j ==> #[trigger] bs[k].addr != end,
                decreases bs.len() - j,
            {
                if self.blocks[j].addr == end {
                    break;
                }
                j = j + 1;
            }
            if j < self.blocks.len() {
                assert(merge_partner(bs, i as int, j as int));
                assert(j != i);
                let child = self.blocks[j];
                assert(block_wf(bs[j as int]));
                proof {
                    let jj = choose|jj: int| merge_partner(bs, i as int, jj);
                    assert(jj == j) by {
                        if jj < j {
                            assert(bs[jj].addr != end);
                        } else if jj > j {
                            assert(bs[j as int].addr != end);
                        }
                    }
                }
                self.blocks[i] = FreeBlock { addr: b.addr, size: b.size + child.size };
                self.blocks.remove(j);
                proof {
                    assert(self@ =~= merged(bs, i as int, j as int));
                    assert forall|k: int| 0 <= k < self@.len() implies #[trigger] block_wf(self@[k]) by {
                        if k < j {
                            assert(block_wf(bs[k]));
                        } else {
                            assert(block_wf(bs[k + 1]));
                        }
                    }
                }
                if j > i {
                    i = i + 1;
                }
            } else {
                assert(!has_merge_partner(bs, i as int));
                i = i + 1;
            }
        }
    }
}

} // verus!
