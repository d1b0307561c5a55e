//! The slab front end of the global allocator: requests of up to 2 KiB are
//! served from per-size free lists of power-of-two blocks; larger requests and
//! empty lists go to the fallback heap, and the lists are handed back to the
//! fallback heap when it runs dry.
use vstd::prelude::*;

verus! {

/// Number of block size classes.
pub const NUM_BLOCK_SIZES: usize = 9;

/// The block size of class `i`: 8, 16, 32, ..., 2048 bytes.
pub open spec fn block_size_of(i: int) -> int {
    if i == 0 {
        8
    } else if i == 1 {
        16
    } else if i == 2 {
        32
    } else if i == 3 {
        64
    } else if i == 4 {
        128
    } else if i == 5 {
        256
    } else if i == 6 {
        512
    } else if i == 7 {
        1024
    } else {
        2048
    }
}

/// `n` is a power of two.
pub open spec fn is_power_of_two(n: int) -> bool
    decreases n,
{
    if n <= 0 {
        false
    } else if n == 1 {
        true
    } else {
        n % 2 == 0 && is_power_of_two(n / 2)
    }
}

/// The block size of class `i`.
pub fn block_size(i: usize) -> (r: u64)
    requires
        i < NUM_BLOCK_SIZES,
    ensures
        r == block_size_of(i as int),
{
    if i == 0 {
        8
    } else if i == 1 {
        16
    } else if i == 2 {
        32
    } else if i == 3 {
        64
    } else if i == 4 {
        128
    } else if i == 5 {
        256
    } else if i == 6 {
        512
    } else if i == 7 {
        1024
    } else {
        2048
    }
}

/// The class that serves a request: the first class whose blocks are at
/// least as large as both the size and the alignment of the request.
pub open spec fn class_for(size: int, align: int, i: int) -> bool {
    let need = if size >= align { size } else { align };
    &&& 0 <= i < NUM_BLOCK_SIZES
    &&& block_size_of(i) >= need
    &&& forall|k: int| 0 <= k < i ==> #[trigger] block_size_of(k) < need
}

/// The class that serves a request of `size` bytes aligned to `align`, or
/// `None` when the request is larger than the largest block.
pub fn get_block_index(size: u64, align: u64) -> (r: Option<usize>)
    ensures
        match r {
            Some(i) => class_for(size as int, align as int, i as int),
            None => forall|k: int| 0 <= k < NUM_BLOCK_SIZES ==> #[trigger] block_size_of(k) < (if size >= align { size } else { align }),
        },
{
    let need = if size >= align { size } else { align };
    let mut i: usize = 0;
    while i < NUM_BLOCK_SIZES
        invariant
            i <= NUM_BLOCK_SIZES,
            need == (if size >= align { size } else { align }),
            forall|k: int| 0 <= k < i ==> #[trigger] block_size_of(k) < need,
        decreases NUM_BLOCK_SIZES - i,
    {
        if block_size(i) >= need {
            return Some(i);
        }
        i = i + 1;
    }
    None
}

/// Every block size is a power of two, so a block is aligned to its own size
/// whenever its address is, and the classes grow strictly.
pub proof fn lemma_block_sizes_are_powers_of_two(i: int)
    requires
        0 <= i < NUM_BLOCK_SIZES,
    ensures
        is_power_of_two(block_size_of(i)),
        i + 1 < NUM_BLOCK_SIZES ==> block_size_of(i + 1) == 2 * block_size_of(i),
{
    reveal_with_fuel(is_power_of_two, 13);
}

/// The per-class free lists; the last element of each list is its head.
pub struct SlabAllocator {
    slabs: Vec<Vec<u64>>,
}

impl View for SlabAllocator {
    type V = Seq<Seq<u64>>;

    closed spec fn view(&self) -> Seq<Seq<u64>> {
        Seq::new(self.slabs@.len(), |i: int| self.slabs@[i]@)
    }
}

impl SlabAllocator {
    pub open spec fn wf(&self) -> bool {
        self@.len() == NUM_BLOCK_SIZES
    }

    /// Empty free lists for every class.
    pub fn new() -> (r: Self)
        ensures
            r.wf(),
            forall|i: int| 0 <= i < NUM_BLOCK_SIZES ==> #[trigger] r@[i].len() == 0,
    {
        let mut slabs: Vec<Vec<u64>> = Vec::new();
        let mut i: usize = 0;
        while i < NUM_BLOCK_SIZES
            invariant
                i <= NUM_BLOCK_SIZES,
                slabs@.len() == i,
                forall|k: int| 0 <= k < i ==> #[trigger] slabs@[k]@.len() == 0,
            decreases NUM_BLOCK_SIZES - i,
        {
            slabs.push(Vec::new());
            i = i + 1;
        }
        SlabAllocator { slabs }
    }

    /// Takes the head block of class `index`, or `None` when that list is
    /// empty and the request has to go to the fallback heap.
    pub fn alloc_block(&mut self, index: usize) -> (r: Option<u64>)
        requires
            old(self).wf(),
            index < NUM_BLOCK_SIZES,
        ensures
            final(self).wf(),
            match r {
                Some(a) => old(self)@[index as int].len() > 0
                    && a == old(self)@[index as int].last()
                    && final(self)@ == old(self)@.update(index as int, old(self)@[index as int].drop_last()),
                None => old(self)@[index as int].len() == 0 && final(self)@ == old(self)@,
            },
    {
        let r = self.slabs[index].pop();
        assert(self@ =~= old(self)@.update(index as int, self.slabs@[index as int]@));
        r
    }

    /// Makes the block at `addr` the head of the list of class `index`.
    pub fn dealloc_block(&mut self, addr: u64, index: usize)
        requires
            old(self).wf(),
            index < NUM_BLOCK_SIZES,
        ensures
            final(self).wf(),
            final(self)@ == old(self)@.update(index as int, old(self)@[index as int].push(addr)),
    {
        self.slabs[index].push(addr);
        assert(self@ =~= old(self)@.update(index as int, old(self)@[index as int].push(addr)));
    }

    /// Serves a request from the free lists. `None` means that the request
    /// goes to the fallback heap: it is too large for any class, or the list
    /// of its class is empty.
    pub fn allocate(&mut self, size: u64, align: u64) -> (r: Option<u64>)
        requires
            old(self).wf(),
        ensures
            final(self).wf(),
            match r {
                Some(a) => exists|i: int|
                    class_for(size as int, align as int, i)
                    && old(self)@[i].len() > 0
                    && a == old(self)@[i].last()
                    && final(self)@ == old(self)@.update(i, old(self)@[i].drop_last()),
                None => final(self)@ == old(self)@
                    && forall|i: int| class_for(size as int, align as int, i) ==> old(self)@[i].len() == 0,
            },
    {
        match get_block_index(size, align) {
            Some(index) => {
                let r = self.alloc_block(index);
                proof {
                    assert forall|i: int| class_for(size as int, align as int, i) implies i == index by {
                        if i < index {
                            assert(block_size_of(i) < (if size >= align { size } else { align }));
                        } else if i > index {
                            assert(block_size_of(index as int) < (if size >= align { size } else { align }));
                        }
                    }
                }
                r
            },
            None => {
                proof {
                    assert forall|i: int| class_for(size as int, align as int, i) implies old(self)@[i].len() == 0 by {
                        assert(block_size_of(i) < (if size >= align { size } else { align }));
                    }
                }
                None
            },
        }
    }

    /// Takes back a block. Returns whether a free list kept it; `false`
    /// means that it belongs to the fallback heap.
    pub fn deallocate(&mut self, addr: u64, size: u64, align: u64) -> (r: bool)
        requires
            old(self).wf(),
        ensures
            final(self).wf(),
            r == (exists|i: int| class_for(size as int, align as int, i)),
            r ==> exists|i: int|
                class_for(size as int, align as int, i)
                && final(self)@ == old(self)@.update(i, old(self)@[i].push(addr)),
            !r ==> final(self)@ == old(self)@,
    {
        match get_block_index(size, align) {
            Some(index) => {
                self.dealloc_block(addr, index);
                true
            },
            None => {
                proof {
                    assert forall|i: int| !class_for(size as int, align as int, i) by {
                        if 0 <= i < NUM_BLOCK_SIZES {
                            assert(block_size_of(i) < (if size >= align { size } else { align }));
                        }
                    }
                }
                false
            },
        }
    }

    /// Empties every free list and returns its blocks, class by class from
    /// the smallest, each list from its head, as (address, block size) pairs
    /// for the fallback heap.
    pub fn defragment(&mut self) -> (r: Vec<(u64, u64)>)
        requires
            old(self).wf(),
        ensures
            final(self).wf(),
            forall|i: int| 0 <= i < NUM_BLOCK_SIZES ==> #[trigger] final(self)@[i].len() == 0,
            r@ == drained(old(self)@, 0),
    {
        let mut out: Vec<(u64, u64)> = Vec::new();
        let mut index: usize = 0;
        let ghost start = self@;
        while index < NUM_BLOCK_SIZES
            invariant
                self.wf(),
                index <= NUM_BLOCK_SIZES,
                forall|k: int| 0 <= k < index ==> #[trigger] self@[k].len() == 0,
                forall|k: int| index <= k < NUM_BLOCK_SIZES ==> #[trigger] self@[k] == start[k],
                out@ + drained(self@, index as int) == drained(start, 0),
            decreases NUM_BLOCK_SIZES - index,
        {
            let size = block_size(index);
            while self.slabs[index].len() > 0
                invariant
                    self.wf(),
                    index < NUM_BLOCK_SIZES,
                    size == block_size_of(index as int),
                    forall|k: int| 0 <= k < index ==> #[trigger] self@[k].len() == 0,
                    forall|k: int| index < k < NUM_BLOCK_SIZES ==> #[trigger] self@[k] == start[k],
                    out@ + drained(self@, index as int) == drained(start, 0),
                decreases self@[index as int].len(),
            {
                let ghost before = self@;
                let a = self.alloc_block(index);
                match a {
                    Some(addr) => {
                        proof {
                            lemma_drained_pop(before, index as int);
                            assert(self@ == before.update(index as int, before[index as int].drop_last()));
                        }
                        out.push((addr, size));
                        proof {
                            assert(out@ + drained(self@, index as int) =~= drained(start, 0));
                        }
                    },
                    None => {},
                }
            }
            proof {
                lemma_drained_empty_head(self@, index as int);
            }
            index = index + 1;
        }
        assert(drained(self@, NUM_BLOCK_SIZES as int) =~= Seq::<(u64, u64)>::empty());
        assert(out@ =~= drained(start, 0));
        out
    }

    /// The free list of class `index`, from its head.
    pub fn blocks(&self, index: usize) -> (r: Vec<u64>)
        requires
            self.wf(),
            index < NUM_BLOCK_SIZES,
        ensures
            r@ == self@[index as int].reverse(),
    {
        let v = &self.slabs[index];
        let mut r: Vec<u64> = Vec::new();
        let mut k: usize = v.len();
        while k > 0
            invariant
                k <= v@.len(),
                v@ == self@[index as int],
                r@ == v@.subrange(k as int, v@.len() as int).reverse(),
            decreases k,
        {
            k = k - 1;
            r.push(v[k]);
            assert(r@ =~= v@.subrange(k as int, v@.len() as int).reverse());
        }
        assert(v@.subrange(0, v@.len() as int) =~= v@);
        r
    }
}

/// The blocks of one free list from its head, tagged with their block size.
pub open spec fn list_from_head(list: Seq<u64>, size: int) -> Seq<(u64, u64)>
    decreases list.len(),
{
    if list.len() == 0 {
        Seq::empty()
    } else {
        seq![(list.last(), size as u64)] + list_from_head(list.drop_last(), size)
    }
}

/// The blocks of the free lists of class `i` and above, in the order in which
/// they are handed back to the fallback heap.
pub open spec fn drained(slabs: Seq<Seq<u64>>, i: int) -> Seq<(u64, u64)>
    decreases NUM_BLOCK_SIZES - i,
{
    if i < 0 || i >= NUM_BLOCK_SIZES {
        Seq::empty()
    } else {
        list_from_head(slabs[i], block_size_of(i)) + drained(slabs, i + 1)
    }
}

proof fn lemma_drained_frame(a: Seq<Seq<u64>>, b: Seq<Seq<u64>>, i: int)
    requires
        forall|k: int| i <= k < NUM_BLOCK_SIZES ==> #[trigger] a[k] == b[k],
    ensures
        drained(a, i) == drained(b, i),
    decreases NUM_BLOCK_SIZES - i,
{
    if 0 <= i < NUM_BLOCK_SIZES {
        lemma_drained_frame(a, b, i + 1);
    }
}

proof fn lemma_drained_pop(s: Seq<Seq<u64>>, i: int)
    requires
        0 <= i < NUM_BLOCK_SIZES,
        s.len() == NUM_BLOCK_SIZES,
        s[i].len() > 0,
    ensures
        drained(s, i) == seq![(s[i].last(), block_size_of(i) as u64)] + drained(
            s.update(i, s[i].drop_last()),
            i,
        ),
{
    let t = s.update(i, s[i].drop_last());
    lemma_drained_frame(s, t, i + 1);
    assert(drained(s, i) =~= seq![(s[i].last(), block_size_of(i) as u64)] + drained(t, i));
}

proof fn lemma_drained_empty_head(s: Seq<Seq<u64>>, i: int)
    requires
        0 <= i < NUM_BLOCK_SIZES,
        s[i].len() == 0,
    ensures
        drained(s, i) == drained(s, i + 1),
{
    assert(list_from_head(s[i], block_size_of(i)) =~= Seq::<(u64, u64)>::empty());
    assert(drained(s, i) =~= drained(s, i + 1));
}

/// A block given back for a request is the first one handed out again for a
/// request of the same class.
pub proof fn lemma_freed_block_is_reused_first(slabs: Seq<Seq<u64>>, i: int, addr: u64)
    requires
        slabs.len() == NUM_BLOCK_SIZES,
        0 <= i < NUM_BLOCK_SIZES,
    ensures
        ({
            let after_free = slabs.update(i, slabs[i].push(addr));
            &&& after_free[i].len() > 0
            &&& after_free[i].last() == addr
            &&& after_free.update(i, after_free[i].drop_last()) == slabs
        }),
{
    let after_free = slabs.update(i, slabs[i].push(addr));
    assert(after_free[i].drop_last() =~= slabs[i]);
    assert(after_free.update(i, after_free[i].drop_last()) =~= slabs);
}

} // verus!
