//! Fixed-size buffer arena with ownership tracking.
//!
//! One contiguous byte storage is divided into `count` slots of `size` bytes
//! each; the slot index doubles as the kernel's zero-copy buffer identifier.
//! A free list (LIFO stack of unused indices) decides admission: when it is
//! empty, `acquire` returns `None` and the caller must reject work rather
//! than wait. A `Guard` is the exclusive ownership handle for one acquired
//! slot; handing it back to `release` is the sole way a slot returns to the
//! free list, so a slot index is never held by two live guards at once.

use vstd::prelude::*;

verus! {

/// Exclusive ownership of one arena slot. Only `BufferPool::acquire` creates
/// guards, and `BufferPool::release` consumes them; the slot's bytes are
/// reached through the pool by the guard's stable index.
pub struct Guard {
    idx: u16,
}

impl Guard {
    /// The slot index this guard owns.
    pub closed spec fn spec_idx(&self) -> u16 {
        self.idx
    }

    /// The slot index this guard owns; it is also the kernel's identifier
    /// for the slot's registered buffer.
    pub fn idx(&self) -> (r: u16)
        ensures
            r == self.spec_idx(),
    {
        self.idx
    }
}

/// The arena: `count * size` bytes of storage plus the free list.
pub struct BufferPool {
    data: Vec<u8>,
    count: u16,
    size: u32,
    free_indexes: Vec<u16>,
}

impl BufferPool {
    /// Number of slots.
    pub closed spec fn spec_count(&self) -> u16 {
        self.count
    }

    /// Bytes per slot.
    pub closed spec fn spec_size(&self) -> u32 {
        self.size
    }

    /// The free list, top of the stack last.
    pub closed spec fn free(&self) -> Seq<u16> {
        self.free_indexes@
    }

    /// The whole backing storage.
    pub closed spec fn storage(&self) -> Seq<u8> {
        self.data@
    }

    /// First byte of the given slot within the storage.
    pub open spec fn slot_start(&self, idx: u16) -> int {
        idx as int * self.spec_size() as int
    }

    /// Well-formedness: the storage covers exactly `count` slots and the
    /// free list names each unused slot at most once.
    pub open spec fn wf(&self) -> bool {
        &&& self.storage().len() == self.spec_count() as int * self.spec_size() as int
        &&& self.free().no_duplicates()
        &&& forall|i: int|
            0 <= i < self.free().len() ==> #[trigger] self.free()[i] < self.spec_count()
    }

    /// Allocate the arena: zeroed storage, every slot index on the free list.
    pub fn new(count: u16, size: u32) -> (pool: BufferPool)
        requires
            count as int * size as int <= usize::MAX as int,
        ensures
            pool.wf(),
            pool.spec_count() == count,
            pool.spec_size() == size,
            pool.free() == Seq::new(count as nat, |i: int| i as u16),
            pool.storage() =~= Seq::new((count as int * size as int) as nat, |i: int| 0u8),
    {
        let total: usize = (count as usize) * (size as usize);
        let data: Vec<u8> = vec![0u8; total];
        let mut free_indexes: Vec<u16> = Vec::new();
        let mut i: u16 = 0;
        while i < count
            invariant
                i <= count,
                free_indexes@ =~= Seq::new(i as nat, |k: int| k as u16),
            decreases count - i,
        {
            free_indexes.push(i);
            i = i + 1;
        }
        let pool = BufferPool { data, count, size, free_indexes };
        proof {
            assert forall|a: int, b: int|
                0 <= a < pool.free().len() && 0 <= b < pool.free().len() && a != b implies pool.free()[a]
                != pool.free()[b] by {
                assert(pool.free()[a] == a as u16);
                assert(pool.free()[b] == b as u16);
            }
            assert(pool.free().no_duplicates());
        }
        pool
    }

    /// How many slots are currently unowned.
    pub fn free_count(&self) -> (n: usize)
        ensures
            n == self.free().len(),
    {
        self.free_indexes.len()
    }

    /// Number of slots, as configured at construction.
    pub fn count(&self) -> (c: u16)
        ensures
            c == self.spec_count(),
    {
        self.count
    }

    /// Bytes per slot, as configured at construction.
    pub fn size(&self) -> (s: u32)
        ensures
            s == self.spec_size(),
    {
        self.size
    }

    /// Borrow the whole backing storage. The I/O shell registers these bytes
    /// with the kernel's zero-copy buffer table, one `size`-byte entry per
    /// slot, so that the slot index addresses the same region the pool does.
    pub fn storage_bytes(&self) -> (bytes: &Vec<u8>)
        ensures
            bytes@ == self.storage(),
    {
        &self.data
    }

    /// The byte offset of each slot within the storage, one entry per slot in
    /// slot-index order. The I/O shell turns these into the (pointer, size)
    /// pairs it registers with the kernel at startup, so that a read or write
    /// addressed "by buffer index N" uses exactly slot N's `size`-byte range.
    pub fn slot_offsets(&self) -> (offsets: Vec<usize>)
        requires
            self.wf(),
        ensures
            offsets@.len() == self.spec_count(),
            forall|i: int| 0 <= i < offsets@.len() ==> offsets@[i] == i * self.spec_size() as int,
    {
        let _storage_len: usize = self.data.len();
        let size: usize = self.size as usize;
        let mut offsets: Vec<usize> = Vec::new();
        let mut i: u16 = 0;
        while i < self.count
            invariant
                self.wf(),
                i <= self.spec_count(),
                size == self.spec_size(),
                self.storage().len() <= usize::MAX,
                offsets@.len() == i,
                forall|j: int| 0 <= j < i ==> offsets@[j] == j * self.spec_size() as int,
            decreases self.spec_count() - i,
        {
            proof {
                lemma_slot_in_storage(
                    i as int,
                    self.spec_count() as int,
                    self.spec_size() as int,
                );
            }
            offsets.push((i as usize) * size);
            i = i + 1;
        }
        offsets
    }

    /// Pop one slot off the free list. Succeeds exactly when a slot is free;
    /// `None` is transient backpressure, not an error.
    pub fn acquire(&mut self) -> (guard: Option<Guard>)
        requires
            old(self).wf(),
        ensures
            final(self).wf(),
            final(self).spec_count() == old(self).spec_count(),
            final(self).spec_size() == old(self).spec_size(),
            final(self).storage() == old(self).storage(),
            guard is Some <==> old(self).free().len() > 0,
            match guard {
                Some(g) => {
                    &&& g.spec_idx() == old(self).free().last()
                    &&& g.spec_idx() < final(self).spec_count()
                    &&& final(self).free() == old(self).free().drop_last()
                    &&& !final(self).free().contains(g.spec_idx())
                },
                None => final(self).free() == old(self).free(),
            },
    {
        match self.free_indexes.pop() {
            Some(idx) => {
                proof {
                    let pre = old(self).free();
                    assert forall|i: int| 0 <= i < self.free().len() implies #[trigger] self.free()[i]
                        != idx by {
                        assert(pre[i] == self.free()[i]);
                        assert(pre[pre.len() - 1] == idx);
                    }
                    if self.free().contains(idx) {
                        let w = choose|w: int| 0 <= w < self.free().len() && self.free()[w] == idx;
                        assert(self.free()[w] != idx);
                    }
                }
                Some(Guard { idx })
            },
            None => None,
        }
    }

    /// Return a guard's slot to the free list. This is the sole release path
    /// and consumes the guard, so release happens exactly once per guard.
    pub fn release(&mut self, guard: Guard)
        requires
            old(self).wf(),
            guard.spec_idx() < old(self).spec_count(),
            !old(self).free().contains(guard.spec_idx()),
        ensures
            final(self).wf(),
            final(self).spec_count() == old(self).spec_count(),
            final(self).spec_size() == old(self).spec_size(),
            final(self).storage() == old(self).storage(),
            final(self).free() == old(self).free().push(guard.spec_idx()),
    {
        proof {
            let pre = old(self).free();
            let post = pre.push(guard.spec_idx());
            assert forall|a: int, b: int|
                0 <= a < post.len() && 0 <= b < post.len() && a != b implies post[a] != post[b] by {
                if a < pre.len() && b < pre.len() {
                    assert(pre.no_duplicates());
                } else if a < pre.len() {
                    assert(pre[a] == post[a]);
                    if post[a] == guard.spec_idx() {
                        assert(pre.contains(pre[a]));
                    }
                } else {
                    assert(pre[b] == post[b]);
                    if post[b] == guard.spec_idx() {
                        assert(pre.contains(pre[b]));
                    }
                }
            }
        }
        self.free_indexes.push(guard.idx);
    }

    /// Copy out the first `len` bytes of a slot: the bytes a read completion
    /// reported as valid. Only this prefix may be trusted; the remainder of
    /// the slot is never zeroed between owners.
    pub fn slot_prefix(&self, idx: u16, len: u32) -> (bytes: Vec<u8>)
        requires
            self.wf(),
            idx < self.spec_count(),
            len <= self.spec_size(),
        ensures
            bytes@ == self.storage().subrange(self.slot_start(idx), self.slot_start(idx) + len as int),
    {
        proof {
            lemma_slot_in_storage(idx as int, self.spec_count() as int, self.spec_size() as int);
        }
        let _storage_len: usize = self.data.len();
        let start: usize = (idx as usize) * (self.size as usize);
        let mut bytes: Vec<u8> = Vec::new();
        let mut i: usize = 0;
        while i < len as usize
            invariant
                self.wf(),
                idx < self.spec_count(),
                len <= self.spec_size(),
                start == self.slot_start(idx),
                start + self.spec_size() as int <= self.storage().len(),
                self.storage().len() <= usize::MAX,
                i <= len as usize,
                bytes@ =~= self.storage().subrange(start as int, start as int + i as int),
            decreases len as usize - i,
        {
            bytes.push(self.data[start + i]);
            i = i + 1;
        }
        bytes
    }

    /// Overwrite the front of a slot with the given bytes (at most one
    /// slot's worth), leaving every byte outside that range untouched.
    pub fn write_slot(&mut self, idx: u16, bytes: &Vec<u8>)
        requires
            old(self).wf(),
            idx < old(self).spec_count(),
            bytes@.len() <= old(self).spec_size(),
        ensures
            final(self).wf(),
            final(self).spec_count() == old(self).spec_count(),
            final(self).spec_size() == old(self).spec_size(),
            final(self).free() == old(self).free(),
            final(self).storage().len() == old(self).storage().len(),
            forall|j: int|
                0 <= j < bytes@.len() ==> final(self).storage()[old(self).slot_start(idx) + j]
                    == bytes@[j],
            forall|j: int|
                0 <= j < final(self).storage().len() && !(old(self).slot_start(idx) <= j < old(
                    self,
                ).slot_start(idx) + bytes@.len()) ==> final(self).storage()[j] == old(
                    self,
                ).storage()[j],
    {
        proof {
            lemma_slot_in_storage(idx as int, self.spec_count() as int, self.spec_size() as int);
        }
        let _storage_len: usize = self.data.len();
        let start: usize = (idx as usize) * (self.size as usize);
        let mut i: usize = 0;
        while i < bytes.len()
            invariant
                self.wf(),
                idx < self.spec_count(),
                bytes@.len() <= self.spec_size(),
                start == self.slot_start(idx),
                start + self.spec_size() as int <= self.storage().len(),
                self.storage().len() <= usize::MAX,
                i <= bytes@.len(),
                self.spec_count() == old(self).spec_count(),
                self.spec_size() == old(self).spec_size(),
                self.free() == old(self).free(),
                self.storage().len() == old(self).storage().len(),
                forall|j: int| 0 <= j < i ==> self.storage()[start + j] == bytes@[j],
                forall|j: int|
                    0 <= j < self.storage().len() && !(start <= j < start + i) ==> self.storage()[j]
                        == old(self).storage()[j],
            decreases bytes@.len() - i,
        {
            self.data[start + i] = bytes[i];
            i = i + 1;
        }
    }
}

/// A slot's byte range lies inside the storage: `idx < count` puts
/// `idx * size + size` at or below `count * size`.
pub proof fn lemma_slot_in_storage(idx: int, count: int, size: int)
    requires
        0 <= idx < count,
        0 <= size,
    ensures
        0 <= idx * size,
        idx * size + size <= count * size,
{
    assert(0 <= idx * size && idx * size + size <= count * size) by (nonlinear_arith)
        requires
            0 <= idx < count,
            0 <= size,
    ;
}

} // verus!
