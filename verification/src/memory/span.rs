//! A span: a run of pages cut into slots of one size, with one bit per slot
//! that tells whether the slot is taken.

use vstd::prelude::*;
use super::bitmap::{
    bits_of, count_set, lemma_count_clear, lemma_count_update, lemma_update_bit,
    lemma_zero_byte, test_bit, with_bit,
};
use super::sizes::{
    class_size, get_alloc_pages, get_obj_size, lemma_class_pages, lemma_class_sizes,
    CLASS_TO_ALLOC_PAGES, MAX_SMALL_OBJ_SIZE, NUM_SIZE_CLASSES, PAGE_SIZE,
};
use crate::values::ADDRESS_LIMIT;

verus! {

/// Bytes in the slot bitmap of a span: no span holds more than 512 objects.
pub const SPAN_BITS_SIZE: usize = 64;

/// The most slots a span can have.
pub const MAX_SPAN_SLOTS: usize = 512;

/// A run of pages that serves objects of one size.
pub struct Span {
    pub base: u64,
    pub pages: usize,
    pub obj_size: usize,
    pub capacity: usize,
    pub count: usize,
    pub alloc_bits: [u8; 64],
}

/// A span as its geometry and the set of its slots that are taken.
pub ghost struct SpanView {
    pub base: u64,
    pub pages: nat,
    pub obj_size: nat,
    pub capacity: nat,
    pub count: nat,
    pub used: Seq<bool>,
}

/// The first clear bit among `used[i..limit]`, or `limit` if all are set.
pub open spec fn first_clear_from(used: Seq<bool>, i: int, limit: int) -> int
    decreases limit - i,
{
    if i >= limit {
        limit
    } else if !used[i] {
        i
    } else {
        first_clear_from(used, i + 1, limit)
    }
}

impl SpanView {
    /// The invariant of a span.
    pub open spec fn wf(self) -> bool {
        &&& 16 <= self.obj_size <= MAX_SMALL_OBJ_SIZE
        &&& self.obj_size % 16 == 0
        &&& 1 <= self.pages <= 7
        &&& self.capacity == (self.pages * PAGE_SIZE) / (self.obj_size as int)
        &&& 1 <= self.capacity <= MAX_SPAN_SLOTS
        &&& self.used.len() == MAX_SPAN_SLOTS
        &&& self.count == count_set(self.used.take(self.capacity as int))
        &&& self.base % 16 == 0
        &&& self.base + self.pages * PAGE_SIZE <= ADDRESS_LIMIT
    }

    pub open spec fn is_full(self) -> bool {
        self.count == self.capacity
    }

    /// The slot that the next allocation takes.
    pub open spec fn next_slot(self) -> int {
        first_clear_from(self.used, 0, self.capacity as int)
    }

    /// The span after its next allocation.
    pub open spec fn after_alloc(self) -> SpanView {
        if self.is_full() {
            self
        } else {
            SpanView {
                count: self.count + 1,
                used: self.used.update(self.next_slot(), true),
                ..self
            }
        }
    }

    /// The address that the next allocation returns.
    pub open spec fn alloc_addr(self) -> Option<u64> {
        if self.is_full() {
            None
        } else {
            Some((self.base + self.obj_size * self.next_slot()) as u64)
        }
    }
}

impl View for Span {
    type V = SpanView;

    open spec fn view(&self) -> SpanView {
        SpanView {
            base: self.base,
            pages: self.pages as nat,
            obj_size: self.obj_size as nat,
            capacity: self.capacity as nat,
            count: self.count as nat,
            used: bits_of(self.alloc_bits@),
        }
    }
}

/// Where the first clear bit lies.
pub proof fn lemma_first_clear(used: Seq<bool>, i: int, limit: int)
    requires
        0 <= i <= limit <= used.len(),
    ensures
        i <= first_clear_from(used, i, limit) <= limit,
        first_clear_from(used, i, limit) < limit ==> !used[first_clear_from(used, i, limit)],
        forall|j: int| i <= j < first_clear_from(used, i, limit) ==> used[j],
    decreases limit - i,
{
    if i < limit && used[i] {
        lemma_first_clear(used, i + 1, limit);
    }
}

/// Bits that are all set count their length.
pub proof fn lemma_count_all_set(bits: Seq<bool>)
    requires
        forall|j: int| 0 <= j < bits.len() ==> bits[j],
    ensures
        count_set(bits) == bits.len(),
    decreases bits.len(),
{
    if bits.len() > 0 {
        lemma_count_all_set(bits.drop_last());
    }
}

/// A span that is not full has a free slot, and taking it keeps the span
/// well formed.
pub proof fn lemma_span_alloc(s: SpanView)
    requires
        s.wf(),
        !s.is_full(),
    ensures
        0 <= s.next_slot() < s.capacity,
        !s.used[s.next_slot()],
        s.after_alloc().wf(),
        s.base + s.obj_size * s.next_slot() + s.obj_size <= s.base + s.pages * PAGE_SIZE,
{
    let cap = s.capacity as int;
    let slot = s.next_slot();
    lemma_first_clear(s.used, 0, cap);
    if slot == cap {
        assert forall|j: int| 0 <= j < cap implies s.used.take(cap)[j] by {
            assert(s.used[j]);
        }
        lemma_count_all_set(s.used.take(cap));
    }
    lemma_count_update(s.used.take(cap), slot, true);
    assert(s.used.update(slot, true).take(cap) =~= s.used.take(cap).update(slot, true));
    let size = s.obj_size as int;
    let bytes = s.pages * PAGE_SIZE;
    assert(size * slot + size <= bytes) by (nonlinear_arith)
        requires
            0 <= slot < cap,
            cap == bytes / size,
            size > 0,
            bytes >= 0,
    ;
}

impl Span {
    pub open spec fn wf(&self) -> bool {
        self@.wf()
    }

    /// A span of class `class` over the pages that begin at `base`, with
    /// every slot free.
    pub fn new(base: u64, class: usize) -> (span: Span)
        requires
            1 <= class < NUM_SIZE_CLASSES,
            base % 16 == 0,
            base + CLASS_TO_ALLOC_PAGES[class as int] * PAGE_SIZE <= ADDRESS_LIMIT,
        ensures
            span.wf(),
            span@.base == base,
            span@.pages == CLASS_TO_ALLOC_PAGES[class as int],
            span@.obj_size == class_size(class as int),
            span@.count == 0,
            forall|j: int| 0 <= j < MAX_SPAN_SLOTS ==> !span@.used[j],
    {
        let pages = get_alloc_pages(class);
        let obj_size = get_obj_size(class);
        proof {
            lemma_class_pages(class as int);
            lemma_class_sizes(class as int);
        }
        let capacity = pages * PAGE_SIZE / obj_size;
        let span = Span { base, pages, obj_size, capacity, count: 0, alloc_bits: [0u8; 64] };
        proof {
            assert forall|j: int| 0 <= j < MAX_SPAN_SLOTS implies !span@.used[j] by {
                lemma_zero_byte((j % 8) as u8);
            }
            lemma_count_clear(span@.used.take(capacity as int));
            if obj_size <= 1024 {
            } else {
                assert(obj_size % 128 == 0);
            }
        }
        span
    }

    /// Takes the first free slot and returns its address; none if the span
    /// is full.
    pub fn allocate(&mut self) -> (r: Option<u64>)
        requires
            old(self).wf(),
        ensures
            final(self).wf(),
            final(self)@ == old(self)@.after_alloc(),
            r == old(self)@.alloc_addr(),
    {
        if self.count == self.capacity {
            return None;
        }
        proof {
            lemma_span_alloc(self@);
            super::bitmap::lemma_count_bound(self@.used.take(self.capacity as int));
        }
        let ghost used = self@.used;
        let ghost cap = self.capacity as int;
        let mut i: usize = 0;
        while i < self.capacity
            invariant
                *self == *old(self),
                used == self@.used,
                cap == self.capacity,
                cap <= MAX_SPAN_SLOTS,
                used.len() == MAX_SPAN_SLOTS,
                0 <= i <= cap,
                first_clear_from(used, 0, cap) == first_clear_from(used, i as int, cap),
                first_clear_from(used, 0, cap) < cap,
                self.wf(),
                !self@.is_full(),
                self.count < self.capacity,
            decreases self.capacity - i,
        {
            if !test_bit(self.alloc_bits[i / 8], (i % 8) as u8) {
                let ghost before = self.alloc_bits@;
                let byte = with_bit(self.alloc_bits[i / 8], (i % 8) as u8);
                self.alloc_bits[i / 8] = byte;
                self.count = self.count + 1;
                proof {
                    lemma_update_bit(before, i as int, byte, true);
                    lemma_span_alloc(old(self)@);
                    assert(old(self)@.next_slot() == i);
                    assert(self.obj_size * i <= 57344) by (nonlinear_arith)
                        requires
                            self.obj_size * i + self.obj_size <= self.pages * 8192,
                            self.obj_size >= 0,
                            self.pages <= 7,
                    ;
                }
                let offset = self.obj_size * i;
                return Some(self.base + offset as u64);
            }
            i += 1;
        }
        None
    }

    pub fn is_full(&self) -> (b: bool)
        ensures
            b == self@.is_full(),
    {
        self.count == self.capacity
    }
}

} // verus!
