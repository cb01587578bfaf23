//! An arena: 64 MiB of address space in pages of 8 KiB, with one bit per
//! page that tells whether the page is taken.

use vstd::prelude::*;
use super::bitmap::{
    bits_of, count_set, is_first_fit, lemma_count_update, lemma_update_bit, lemma_zero_byte,
    lemma_count_clear, mark, run_free, run_taken, test_bit, with_bit, without_bit,
};
use super::sizes::{ARENA_SIZE, PAGE_SIZE};
use crate::values::ADDRESS_LIMIT;

verus! {

/// Pages in an arena.
pub const ARENA_COUNT: usize = 8192;

/// Bytes in the page bitmap of an arena.
pub const ARENA_BITS_SIZE: usize = 1024;

/// An arena of 8192 pages.
pub struct Arena {
    base: u64,
    count: usize,
    bits: [u8; 1024],
}

/// An arena as a base address and the set of its pages that are taken.
pub ghost struct ArenaView {
    pub base: u64,
    pub count: nat,
    pub used: Seq<bool>,
}

/// Where an arena may begin: on a page boundary, and so low that every
/// address in it fits in a pointer word.
pub open spec fn valid_arena_base(base: u64) -> bool {
    &&& base % (PAGE_SIZE as u64) == 0
    &&& base + ARENA_SIZE <= ADDRESS_LIMIT
}

impl View for Arena {
    type V = ArenaView;

    closed spec fn view(&self) -> ArenaView {
        ArenaView { base: self.base, count: self.count as nat, used: bits_of(self.bits@) }
    }
}

impl ArenaView {
    /// The invariant of an arena: it counts the pages that its bitmap marks.
    pub open spec fn wf(self) -> bool {
        &&& valid_arena_base(self.base)
        &&& self.used.len() == ARENA_COUNT
        &&& self.count == count_set(self.used)
    }

    /// Whether the arena has a run of `n` free pages.
    pub open spec fn has_room(self, n: int) -> bool {
        exists|s: int| run_free(self.used, s, n)
    }
}

impl Arena {
    pub open spec fn wf(&self) -> bool {
        self@.wf()
    }

    /// An arena over the 64 MiB that begin at `base`, with every page free.
    pub fn new(base: u64) -> (arena: Arena)
        requires
            valid_arena_base(base),
        ensures
            arena.wf(),
            arena@.base == base,
            arena@.count == 0,
            forall|j: int| 0 <= j < ARENA_COUNT ==> !arena@.used[j],
    {
        let arena = Arena { base, count: 0, bits: [0u8; 1024] };
        proof {
            assert forall|j: int| 0 <= j < ARENA_COUNT implies !arena@.used[j] by {
                lemma_zero_byte((j % 8) as u8);
            }
            lemma_count_clear(arena@.used);
        }
        arena
    }

    /// The address of the first page.
    pub fn base(&self) -> (b: u64)
        ensures
            b == self@.base,
    {
        self.base
    }

    /// The page bitmap.
    pub fn bits(&self) -> (b: &[u8; 1024])
        ensures
            bits_of(b@) == self@.used,
    {
        &self.bits
    }

    /// The number of pages taken.
    pub fn count(&self) -> (n: usize)
        ensures
            n == self@.count,
    {
        self.count
    }

    /// Takes the first run of `npages` free pages: marks them and returns the
    /// address of the first. Without such a run, nothing changes.
    pub fn try_alloc(&mut self, npages: usize) -> (r: Option<u64>)
        requires
            old(self).wf(),
        ensures
            final(self).wf(),
            final(self)@.base == old(self)@.base,
            match r {
                Some(addr) => {
                    &&& addr >= old(self)@.base
                    &&& (addr - old(self)@.base) % (PAGE_SIZE as int) == 0
                    &&& is_first_fit(
                        old(self)@.used,
                        npages as int,
                        (addr - old(self)@.base) / (PAGE_SIZE as int),
                    )
                    &&& final(self)@.used == mark(
                        old(self)@.used,
                        (addr - old(self)@.base) / (PAGE_SIZE as int),
                        npages as int,
                        true,
                    )
                    &&& final(self)@.count == old(self)@.count + npages
                },
                None => {
                    &&& final(self)@ == old(self)@
                    &&& forall|s: int| !run_free(old(self)@.used, s, npages as int)
                },
            },
    {
        if npages > ARENA_COUNT {
            return None;
        }
        let ghost used = self@.used;
        let mut start: usize = 0;
        while start + npages <= ARENA_COUNT
            invariant
                npages <= ARENA_COUNT,
                start <= ARENA_COUNT,
                old(self).wf(),
                *self == *old(self),
                used == self@.used,
                used.len() == ARENA_COUNT,
                forall|s: int| 0 <= s < start ==> !run_free(used, s, npages as int),
            decreases ARENA_COUNT + 1 - start,
        {
            let mut i: usize = start;
            let mut free = true;
            while i < start + npages
                invariant_except_break
                    free,
                invariant
                    start <= i <= start + npages <= ARENA_COUNT,
                    used == self@.used,
                    used.len() == ARENA_COUNT,
                    forall|j: int| start <= j < i ==> !used[j],
                ensures
                    start <= i <= start + npages,
                    free ==> i == start + npages,
                    !free ==> i < start + npages && used[i as int],
                    forall|j: int| start <= j < i ==> !used[j],
                decreases start + npages - i,
            {
                if test_bit(self.bits[i / 8], (i % 8) as u8) {
                    free = false;
                    break ;
                }
                i += 1;
            }
            if free {
                assert(is_first_fit(used, npages as int, start as int));
                let mut j: usize = start;
                while j < start + npages
                    invariant
                        start <= j <= start + npages <= ARENA_COUNT,
                        used.len() == ARENA_COUNT,
                        self.base == old(self).base,
                        self.count == old(self).count,
                        old(self).wf(),
                        old(self)@.count == count_set(used),
                        forall|k: int| start <= k < start + npages ==> !used[k],
                        self@.used == mark(used, start as int, j - start, true),
                        count_set(self@.used) == count_set(used) + (j - start),
                    decreases start + npages - j,
                {
                    let ghost before = self.bits@;
                    let byte = with_bit(self.bits[j / 8], (j % 8) as u8);
                    self.bits[j / 8] = byte;
                    proof {
                        lemma_update_bit(before, j as int, byte, true);
                        lemma_count_update(bits_of(before), j as int, true);
                        assert(self@.used =~= mark(used, start as int, j + 1 - start, true));
                    }
                    j += 1;
                }
                proof {
                    super::bitmap::lemma_count_bound(self@.used);
                }
                self.count = self.count + npages;
                assert(start * 8192 <= 0x400_0000) by (nonlinear_arith)
                    requires
                        start <= 8192,
                ;
                let addr = self.base + (start as u64) * (PAGE_SIZE as u64);
                assert((addr - self.base) / (PAGE_SIZE as int) == start) by (nonlinear_arith)
                    requires
                        addr - self.base == start * 8192,
                        PAGE_SIZE == 8192,
                ;
                assert((addr - self.base) % (PAGE_SIZE as int) == 0) by (nonlinear_arith)
                    requires
                        addr - self.base == start * 8192,
                        PAGE_SIZE == 8192,
                ;
                return Some(addr);
            }
            proof {
                assert forall|s: int| start <= s < i + 1 implies !run_free(
                    used,
                    s,
                    npages as int,
                ) by {
                    if run_free(used, s, npages as int) {
                        assert(!used[i as int]);
                    }
                }
            }
            start = i + 1;
        }
        None
    }

    /// Gives back the `npages` pages that begin at `start`: their bits are
    /// cleared, whether or not they were set. Where all of them were set,
    /// the arena counts `npages` pages less.
    pub fn dealloc(&mut self, start: u64, npages: usize)
        requires
            old(self).wf(),
            old(self)@.base <= start < old(self)@.base + ARENA_SIZE,
            npages * PAGE_SIZE + (start - old(self)@.base) <= ARENA_SIZE,
        ensures
            final(self).wf(),
            final(self)@.base == old(self)@.base,
            final(self)@.used == mark(
                old(self)@.used,
                (start - old(self)@.base) / (PAGE_SIZE as int),
                npages as int,
                false,
            ),
            run_taken(
                old(self)@.used,
                (start - old(self)@.base) / (PAGE_SIZE as int),
                npages as int,
            ) ==> final(self)@.count == old(self)@.count - npages,
    {
        let ghost used = self@.used;
        let offset = (start - self.base) as usize;
        let page = offset / PAGE_SIZE;
        assert(page + npages <= ARENA_COUNT) by (nonlinear_arith)
            requires
                npages * 8192 + offset <= 0x400_0000,
                page == offset / 8192,
        ;
        let mut i: usize = page;
        while i < page + npages
            invariant
                page <= i <= page + npages <= ARENA_COUNT,
                used.len() == ARENA_COUNT,
                self.base == old(self).base,
                valid_arena_base(self.base),
                self@.used == mark(used, page as int, i - page, false),
                self.count == count_set(self@.used),
                used == old(self)@.used,
                run_taken(used, page as int, npages as int) ==> self.count == old(self).count
                    - (i - page),
            decreases page + npages - i,
        {
            let ghost before = self.bits@;
            proof {
                if run_taken(used, page as int, npages as int) {
                    assert(used[i as int]);
                    assert(self@.used[i as int]);
                }
            }
            if test_bit(self.bits[i / 8], (i % 8) as u8) {
                let byte = without_bit(self.bits[i / 8], (i % 8) as u8);
                self.bits[i / 8] = byte;
                proof {
                    lemma_update_bit(before, i as int, byte, false);
                    lemma_count_update(bits_of(before), i as int, false);
                }
                self.count = self.count - 1;
            }
            assert(self@.used =~= mark(used, page as int, i + 1 - page, false));
            i += 1;
        }
    }
}

} // verus!
